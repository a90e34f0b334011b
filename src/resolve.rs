//! The symbol resolution engine: a query is either taken as a symbol or
//! narrowed over the name trie to the candidates at its longest matching prefix.
use vstd::prelude::*;
use vstd::string::StrSliceExecFns;
use crate::index::{
    entry_for, has_symbol, key_set, lemma_indexed_word_has_entry, lemma_key_set_finite, EntryModel,
    ReferenceIndex,
};
use crate::text::{
    has_prefix, is_listing, lemma_is_listing_is_the_listing, lemma_listing_exists, listing, lower_of,
    strictly_sorted, strings_view, to_lower,
};
use crate::trie::{entries_with_prefix, search_prefix};

verus! {

/// How a query is to be read.
#[derive(Clone, Copy, Debug, PartialEq, Eq, Structural)]
pub enum Mode {
    /// A symbol if some record carries it exactly, else a name prefix.
    Auto,
    /// Always a symbol.
    ForceSymbol,
    /// Always a name prefix.
    ForceName,
}

/// The outcome of resolving a query.
#[derive(Debug)]
pub enum Resolution {
    /// The query is taken as the symbol itself.
    Direct(String),
    /// Indexed (lowercase) names found by prefix narrowing, in ascending order;
    /// empty when nothing matched.
    Candidates(Vec<String>),
}

/// The trie's answer for prefix `p`: the matching names in ascending order.
pub open spec fn search_result(words: Set<Seq<char>>, p: Seq<char>) -> Seq<Seq<char>> {
    listing(entries_with_prefix(words, p))
}

/// The result retained after narrowing over the first `n` characters of `lq`:
/// the answer at the longest of those prefixes that has one, else nothing.
pub open spec fn narrow(words: Set<Seq<char>>, lq: Seq<char>, n: int) -> Seq<Seq<char>>
    decreases n,
{
    if n <= 0 {
        Seq::empty()
    } else if search_result(words, lq.take(n)).len() > 0 {
        search_result(words, lq.take(n))
    } else {
        narrow(words, lq, n - 1)
    }
}

/// The candidates for a query: narrowing over the whole lowercased query.
pub open spec fn candidates_for(words: Set<Seq<char>>, q: Seq<char>) -> Seq<Seq<char>> {
    narrow(words, lower_of(q), lower_of(q).len() as int)
}

/// The query is taken as a symbol without consulting the trie.
pub open spec fn is_direct(entries: Seq<EntryModel>, q: Seq<char>, mode: Mode) -> bool {
    mode == Mode::ForceSymbol || (mode == Mode::Auto && has_symbol(entries, q))
}

/// `r` is what resolving `q` in `mode` gives against an index with these
/// records and trie entries.
pub open spec fn resolves_to(
    entries: Seq<EntryModel>,
    words: Set<Seq<char>>,
    q: Seq<char>,
    mode: Mode,
    r: &Resolution,
) -> bool {
    if is_direct(entries, q, mode) {
        r is Direct && r->Direct_0@ == q
    } else {
        r is Candidates && strings_view(r->Candidates_0@) == candidates_for(words, q)
    }
}

impl ReferenceIndex {
    /// Narrows a query over the name trie: for each character of the lowercased
    /// query, the trie is searched for the prefix so far, and a non-empty answer
    /// replaces the one retained.
    pub fn find_candidates(&self, query: &str) -> (r: Vec<String>)
        ensures
            strings_view(r@) == candidates_for(self.words(), query@),
    {
        let lq = to_lower(query);
        self.narrow_lowercase(lq.as_str())
    }

    /// Narrows an already lowercased query over the name trie.
    pub fn narrow_lowercase(&self, lq: &str) -> (r: Vec<String>)
        ensures
            strings_view(r@) == narrow(self.words(), lq@, lq@.len() as int),
    {
        let n = lq.unicode_len();
        let ghost words = self.words();
        let mut last: Vec<String> = Vec::new();
        let mut i: usize = 0;
        while i < n
            invariant
                i <= n,
                n == lq@.len(),
                words == self.words(),
                strings_view(last@) == narrow(words, lq@, i as int),
            decreases n - i,
        {
            let prefix = lq.substring_char(0, i + 1);
            assert(prefix@ =~= lq@.take(i as int + 1));
            let found = search_prefix(self.trie(), prefix);
            proof {
                lemma_is_listing_is_the_listing(strings_view(found@), entries_with_prefix(words, prefix@));
            }
            if found.len() > 0 {
                last = found;
            }
            i = i + 1;
        }
        last
    }

    /// Resolves a query: as a symbol when forced, or in `Auto` mode when some
    /// record carries it exactly; otherwise by prefix narrowing over names.
    pub fn resolve(&self, query: &str, mode: Mode) -> (r: Resolution)
        ensures
            resolves_to(self.entries(), self.words(), query@, mode, &r),
    {
        let direct = match mode {
            Mode::ForceSymbol => true,
            Mode::ForceName => false,
            Mode::Auto => self.contains_symbol(query),
        };
        if direct {
            Resolution::Direct(query.to_owned())
        } else {
            Resolution::Candidates(self.find_candidates(query))
        }
    }
}

/// In `Auto` mode a query that some record carries exactly as its symbol
/// resolves to itself.
pub proof fn lemma_known_symbol_is_direct(
    entries: Seq<EntryModel>,
    words: Set<Seq<char>>,
    q: Seq<char>,
    r: &Resolution,
)
    requires
        has_symbol(entries, q),
        resolves_to(entries, words, q, Mode::Auto, r),
    ensures
        r is Direct && r->Direct_0@ == q,
{
}

/// The candidates are the trie's answer at the longest prefix of the lowercased
/// query that has any: when the prefix of length `k` has matches and no longer
/// prefix does, the candidates are exactly the answer for that prefix.
pub proof fn lemma_longest_matched_prefix(words: Set<Seq<char>>, q: Seq<char>, k: int)
    requires
        1 <= k <= lower_of(q).len(),
        search_result(words, lower_of(q).take(k)).len() > 0,
        forall|j: int|
            k < j <= lower_of(q).len() ==> (#[trigger] search_result(
                words,
                lower_of(q).take(j),
            )).len() == 0,
    ensures
        candidates_for(words, q) == search_result(words, lower_of(q).take(k)),
{
    lemma_narrow_down_to(words, lower_of(q), lower_of(q).len() as int, k);
}

proof fn lemma_narrow_down_to(words: Set<Seq<char>>, lq: Seq<char>, n: int, k: int)
    requires
        1 <= k <= n,
        search_result(words, lq.take(k)).len() > 0,
        forall|j: int| k < j <= n ==> (#[trigger] search_result(words, lq.take(j))).len() == 0,
    ensures
        narrow(words, lq, n) == search_result(words, lq.take(k)),
    decreases n,
{
    if n > k {
        assert(search_result(words, lq.take(n)).len() == 0);
        lemma_narrow_down_to(words, lq, n - 1, k);
    }
}

/// When no prefix of the lowercased query matches any name, there are no
/// candidates (no placeholder entry).
pub proof fn lemma_no_match_no_candidates(words: Set<Seq<char>>, q: Seq<char>)
    requires
        forall|j: int|
            1 <= j <= lower_of(q).len() ==> (#[trigger] search_result(
                words,
                lower_of(q).take(j),
            )).len() == 0,
    ensures
        candidates_for(words, q).len() == 0,
{
    lemma_narrow_empty(words, lower_of(q), lower_of(q).len() as int);
}

proof fn lemma_narrow_empty(words: Set<Seq<char>>, lq: Seq<char>, n: int)
    requires
        forall|j: int| 1 <= j <= n ==> (#[trigger] search_result(words, lq.take(j))).len() == 0,
    ensures
        narrow(words, lq, n).len() == 0,
    decreases n,
{
    if n > 0 {
        assert(search_result(words, lq.take(n)).len() == 0);
        lemma_narrow_empty(words, lq, n - 1);
    }
}

/// Resolving the same query in the same mode against the same index twice
/// gives the same outcome.
pub proof fn lemma_resolve_idempotent(
    entries: Seq<EntryModel>,
    words: Set<Seq<char>>,
    q: Seq<char>,
    mode: Mode,
    r1: &Resolution,
    r2: &Resolution,
)
    requires
        resolves_to(entries, words, q, mode, r1),
        resolves_to(entries, words, q, mode, r2),
    ensures
        match (r1, r2) {
            (Resolution::Direct(a), Resolution::Direct(b)) => a@ == b@,
            (Resolution::Candidates(a), Resolution::Candidates(b)) => strings_view(a@)
                == strings_view(b@),
            _ => false,
        },
{
}

/// Name resolution ignores case: two queries with the same lowercase form,
/// neither taken as a symbol, give the same candidates.
pub proof fn lemma_case_insensitive(
    entries: Seq<EntryModel>,
    words: Set<Seq<char>>,
    q1: Seq<char>,
    q2: Seq<char>,
    mode: Mode,
    r1: &Resolution,
    r2: &Resolution,
)
    requires
        lower_of(q1) == lower_of(q2),
        !is_direct(entries, q1, mode),
        !is_direct(entries, q2, mode),
        resolves_to(entries, words, q1, mode, r1),
        resolves_to(entries, words, q2, mode, r2),
    ensures
        r1 is Candidates && r2 is Candidates,
        strings_view(r1->Candidates_0@) == strings_view(r2->Candidates_0@),
{
}

/// Over a finite set of names, the trie's answer for any prefix is the sorted,
/// duplicate-free listing of the names that start with it.
pub proof fn lemma_search_result_is_listing(words: Set<Seq<char>>, p: Seq<char>)
    requires
        words.finite(),
    ensures
        is_listing(search_result(words, p), entries_with_prefix(words, p)),
{
    let m = entries_with_prefix(words, p);
    vstd::set_lib::lemma_set_subset_finite(words, m);
    lemma_listing_exists(m);
}

/// Every indexed name is found by a search for any non-empty prefix of it.
pub proof fn lemma_indexed_name_found(
    entries: Seq<EntryModel>,
    words: Set<Seq<char>>,
    j: int,
    p: Seq<char>,
)
    requires
        words == key_set(entries),
        0 <= j < entries.len(),
        p.len() > 0,
        has_prefix(entries[j].0, p),
    ensures
        search_result(words, p).contains(entries[j].0),
{
    let k = entries[j].0;
    lemma_key_set_finite(entries);
    assert(entries.map_values(|e: EntryModel| e.0)[j] == k);
    assert(entries.map_values(|e: EntryModel| e.0).contains(k));
    assert(words.contains(k));
    assert(entries_with_prefix(words, p).contains(k));
    lemma_search_result_is_listing(words, p);
}

proof fn lemma_narrow_within(words: Set<Seq<char>>, lq: Seq<char>, n: int)
    requires
        words.finite(),
    ensures
        strictly_sorted(narrow(words, lq, n)),
        forall|c: Seq<char>| #[trigger] narrow(words, lq, n).contains(c) ==> words.contains(c),
    decreases n,
{
    if n > 0 {
        lemma_search_result_is_listing(words, lq.take(n));
        lemma_narrow_within(words, lq, n - 1);
        assert forall|c: Seq<char>| #[trigger]
            search_result(words, lq.take(n)).contains(c) implies words.contains(c) by {
            assert(entries_with_prefix(words, lq.take(n)).contains(c));
        }
    }
}

/// Against a well-formed index the candidates come in ascending order without
/// repeats, and each is a name under which a record is indexed.
pub proof fn lemma_candidates_are_indexed(
    entries: Seq<EntryModel>,
    words: Set<Seq<char>>,
    q: Seq<char>,
)
    requires
        words == key_set(entries),
    ensures
        strictly_sorted(candidates_for(words, q)),
        forall|c: Seq<char>| #[trigger]
            candidates_for(words, q).contains(c) ==> entry_for(entries, c) is Some,
{
    lemma_key_set_finite(entries);
    lemma_narrow_within(words, lower_of(q), lower_of(q).len() as int);
    assert forall|c: Seq<char>| #[trigger]
        candidates_for(words, q).contains(c) implies entry_for(entries, c) is Some by {
        lemma_indexed_word_has_entry(entries, c);
    }
}

} // verus!
