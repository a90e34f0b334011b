//! The reference index: every accepted record in input order, and a prefix trie
//! over the lowercase names.
use vstd::prelude::*;
use crate::text::{has_prefix, lower_of, strings_view, to_lower};
use crate::trie::{
    after_push, build_trie, builder_words, new_builder, push_word, trie_words,
};
use trie_rs::Trie;

verus! {

#[verifier::external_type_specification]
#[verifier::external_body]
pub struct ExCsvError(csv::Error);

/// One accepted record: the lowercase name it is indexed under, the name as
/// read, and the symbol as read.
pub struct IndexEntry {
    pub key: String,
    pub name: String,
    pub symbol: String,
}

/// Model of an entry: (key, name, symbol).
pub type EntryModel = (Seq<char>, Seq<char>, Seq<char>);

impl IndexEntry {
    pub open spec fn model(&self) -> EntryModel {
        (self.key@, self.name@, self.symbol@)
    }
}

/// Why the index could not be built.
#[derive(Debug, PartialEq, Eq, Structural)]
pub enum IndexError {
    /// The record source at this position could not be read as a table.
    DataUnavailable { source: usize },
}

/// What a flexible `csv` reader yields for a source: the data rows (the first
/// row is a header), each as its fields, whatever their number; `None` when
/// some row cannot be read.
pub uninterp spec fn csv_rows(data: Seq<u8>) -> Option<Seq<Seq<Seq<char>>>>;

/// A table of rows of fields, as character sequences.
pub open spec fn rows_view(rows: Seq<Vec<String>>) -> Seq<Seq<Seq<char>>> {
    rows.map_values(|r: Vec<String>| strings_view(r@))
}

/// The entry for a row read positionally as (symbol, name, ...).
pub open spec fn entry_of_row(row: Seq<Seq<char>>) -> EntryModel {
    (lower_of(row[1]), row[1], row[0])
}

/// The entries of a table: one per row that has both columns, in order; other
/// rows are skipped.
pub open spec fn entries_of(rows: Seq<Seq<Seq<char>>>) -> Seq<EntryModel>
    decreases rows.len(),
{
    if rows.len() == 0 {
        Seq::empty()
    } else {
        let prior = entries_of(rows.drop_last());
        if rows.last().len() >= 2 {
            prior.push(entry_of_row(rows.last()))
        } else {
            prior
        }
    }
}

/// The lowercase names, one per entry.
pub open spec fn keys_of(entries: Seq<EntryModel>) -> Seq<Seq<char>> {
    entries.map_values(|e: EntryModel| e.0)
}

/// The distinct non-empty lowercase names of the entries.
pub open spec fn key_set(entries: Seq<EntryModel>) -> Set<Seq<char>> {
    keys_of(entries).to_set().filter(|k: Seq<char>| k.len() > 0)
}

/// The non-empty keys shorter than `len`, and those of length `len` at a
/// position below `i`: what the builder holds part-way through filling it.
pub open spec fn pushed_upto(keys: Seq<Seq<char>>, len: int, i: int) -> Set<Seq<char>> {
    Set::new(
        |k: Seq<char>|
            exists|j: int|
                0 <= j < keys.len() && #[trigger] keys[j] == k && 0 < k.len() && (k.len() < len || (
                k.len() == len && j < i)),
    )
}

proof fn lemma_pushed_upto_bounded(keys: Seq<Seq<char>>, len: int, i: int, x: Seq<char>)
    requires
        pushed_upto(keys, len, i).contains(x),
    ensures
        0 < x.len() <= len,
{
}

/// Pushing a key of length `len` at position `i` extends the held set by it:
/// every held word is at most as long, so none has the key as a proper prefix.
proof fn lemma_push_next(keys: Seq<Seq<char>>, len: int, i: int)
    requires
        0 <= i < keys.len(),
        keys[i].len() == len,
        len > 0,
    ensures
        after_push(pushed_upto(keys, len, i), keys[i]) == pushed_upto(keys, len, i + 1),
{
    let w = keys[i];
    let held = pushed_upto(keys, len, i);
    let next = pushed_upto(keys, len, i + 1);
    assert forall|k: Seq<char>| #[trigger] next.contains(k) <==> (held.contains(k) || k == w) by {
        if k == w {
            assert(keys[i] == k);
        }
        if next.contains(k) {
            let j = choose|j: int|
                0 <= j < keys.len() && #[trigger] keys[j] == k && 0 < k.len() && (k.len() < len || (
                k.len() == len && j < i + 1));
            if j != i {
                assert(held.contains(k));
            }
        }
        if held.contains(k) {
            let j = choose|j: int|
                0 <= j < keys.len() && #[trigger] keys[j] == k && 0 < k.len() && (k.len() < len || (
                k.len() == len && j < i));
            assert(keys[j] == k);
        }
    }
    assert(held.insert(w) =~= next);
    if exists|x: Seq<char>| #[trigger] held.contains(x) && has_prefix(x, w) {
        let x = choose|x: Seq<char>| #[trigger] held.contains(x) && has_prefix(x, w);
        lemma_pushed_upto_bounded(keys, len, i, x);
        assert(x =~= x.subrange(0, len));
        assert(held.insert(w) =~= held);
    }
}

/// Once every length up to the longest key is done, the builder holds each
/// non-empty key.
proof fn lemma_pushed_all(keys: Seq<Seq<char>>, max_len: int)
    requires
        forall|j: int| 0 <= j < keys.len() ==> (#[trigger] keys[j]).len() <= max_len,
    ensures
        pushed_upto(keys, max_len + 1, 0) == keys.to_set().filter(|k: Seq<char>| k.len() > 0),
{
    let all = keys.to_set().filter(|k: Seq<char>| k.len() > 0);
    assert forall|k: Seq<char>| #[trigger] all.contains(k) <==> pushed_upto(keys, max_len + 1, 0).contains(k) by {
        if all.contains(k) {
            assert(keys.contains(k));
            let j = choose|j: int| 0 <= j < keys.len() && keys[j] == k;
            assert(keys[j] == k);
        }
        if pushed_upto(keys, max_len + 1, 0).contains(k) {
            let j = choose|j: int|
                0 <= j < keys.len() && #[trigger] keys[j] == k && 0 < k.len() && (k.len() < max_len
                    + 1 || (k.len() == max_len + 1 && j < 0));
            assert(keys.contains(k));
        }
    }
    assert(all =~= pushed_upto(keys, max_len + 1, 0));
}

/// The last entry indexed under `key`: later records overwrite earlier ones.
pub open spec fn entry_for(entries: Seq<EntryModel>, key: Seq<char>) -> Option<EntryModel>
    decreases entries.len(),
{
    if entries.len() == 0 {
        None
    } else if entries.last().0 == key {
        Some(entries.last())
    } else {
        entry_for(entries.drop_last(), key)
    }
}

/// Some entry carries exactly this symbol.
pub open spec fn has_symbol(entries: Seq<EntryModel>, symbol: Seq<char>) -> bool {
    exists|i: int| 0 <= i < entries.len() && (#[trigger] entries[i]).2 == symbol
}

/// The rows of the first `n` sources, concatenated; `None` if one is unreadable.
pub open spec fn rows_of_sources(sources: Seq<Seq<u8>>, n: int) -> Option<Seq<Seq<Seq<char>>>>
    decreases n,
{
    if n <= 0 {
        Some(Seq::empty())
    } else {
        match (rows_of_sources(sources, n - 1), csv_rows(sources[n - 1])) {
            (Some(a), Some(b)) => Some(a + b),
            _ => None,
        }
    }
}

/// Relies on `csv::ReaderBuilder::new`, `ReaderBuilder::flexible(true)`,
/// `ReaderBuilder::from_reader` and the reader's `records` iterator: comma-separated,
/// a header row, rows of any length; every data row with its fields, or the
/// reader's first error.
#[verifier::external_body]
fn read_table(data: &[u8]) -> (r: Result<Vec<Vec<String>>, csv::Error>)
    ensures
        match r {
            Ok(rows) => csv_rows(data@) == Some(rows_view(rows@)),
            Err(_) => csv_rows(data@) is None,
        },
{
    csv::ReaderBuilder::new().flexible(true).from_reader(data).records().map(
        |rec| rec.map(|rec| rec.iter().map(|f| f.to_string()).collect()),
    ).collect()
}

/// The index built once from the reference records and read-only afterwards.
pub struct ReferenceIndex {
    entries: Vec<IndexEntry>,
    trie: Trie<u8>,
}

impl ReferenceIndex {
    /// Every accepted record, in input order.
    pub closed spec fn entries(&self) -> Seq<EntryModel> {
        self.entries@.map_values(|e: IndexEntry| e.model())
    }

    /// The names that prefix search can find.
    pub closed spec fn words(&self) -> Set<Seq<char>> {
        trie_words(self.trie)
    }

    /// Prefix search can find exactly the non-empty indexed names.
    pub open spec fn wf(&self) -> bool {
        self.words() == key_set(self.entries())
    }

    pub(crate) fn trie(&self) -> (t: &Trie<u8>)
        ensures
            trie_words(*t) == self.words(),
    {
        &self.trie
    }

    /// Indexes the rows of a table, each read positionally as (symbol, name);
    /// a row without both columns is skipped.
    pub fn from_rows(rows: &Vec<Vec<String>>) -> (r: ReferenceIndex)
        ensures
            r.wf(),
            r.entries() == entries_of(rows_view(rows@)),
    {
        let mut entries: Vec<IndexEntry> = Vec::new();
        let mut lens: Vec<usize> = Vec::new();
        let mut max_len: usize = 0;
        let ghost rv = rows_view(rows@);
        let mut i: usize = 0;
        while i < rows.len()
            invariant
                i <= rows.len(),
                rv == rows_view(rows@),
                entries@.map_values(|e: IndexEntry| e.model()) == entries_of(rv.take(i as int)),
                lens@.len() == entries@.len(),
                forall|j: int|
                    0 <= j < lens@.len() ==> #[trigger] lens@[j] == entries@[j].key@.len() && lens@[j]
                        <= max_len,
            decreases rows.len() - i,
        {
            let row = &rows[i];
            assert(rv.take(i as int + 1).drop_last() =~= rv.take(i as int));
            assert(rv[i as int] == strings_view(row@));
            if row.len() >= 2 {
                let key = to_lower(row[1].as_str());
                let key_len = key.as_str().unicode_len();
                if key_len > max_len {
                    max_len = key_len;
                }
                lens.push(key_len);
                let entry = IndexEntry { key, name: row[1].clone(), symbol: row[0].clone() };
                let ghost before = entries@;
                entries.push(entry);
                assert(entries@.map_values(|e: IndexEntry| e.model()) =~= before.map_values(
                    |e: IndexEntry| e.model(),
                ).push(entry_of_row(rv[i as int])));
                assert(entries@.map_values(|e: IndexEntry| e.model()).drop_last() =~= before.map_values(
                    |e: IndexEntry| e.model(),
                ));
            }
            i = i + 1;
        }
        assert(rv.take(rows.len() as int) =~= rv);
        let ghost model = entries@.map_values(|e: IndexEntry| e.model());
        let ghost keys = keys_of(model);
        assert forall|j: int| 0 <= j < keys.len() implies #[trigger] keys[j] == entries@[j].key@ by {}
        // Keys go in by increasing length, so none is pushed after a longer
        // key that it is a prefix of.
        let mut builder = new_builder();
        assert(builder_words(builder) =~= pushed_upto(keys, 0, entries.len() as int));
        let mut len: usize = 0;
        while len < max_len
            invariant
                len <= max_len,
                lens@.len() == entries@.len(),
                keys.len() == entries@.len(),
                forall|j: int| 0 <= j < keys.len() ==> #[trigger] keys[j] == entries@[j].key@,
                forall|j: int| 0 <= j < lens@.len() ==> #[trigger] lens@[j] == entries@[j].key@.len(),
                builder_words(builder) == pushed_upto(keys, len as int, entries.len() as int),
            decreases max_len - len,
        {
            let ghost prev = len;
            len = len + 1;
            assert(pushed_upto(keys, prev as int, entries.len() as int) =~= pushed_upto(keys, len as int, 0)) by {
                assert forall|k: Seq<char>| #[trigger] pushed_upto(keys, prev as int, entries.len() as int).contains(k)
                    <==> pushed_upto(keys, len as int, 0).contains(k) by {
                    if pushed_upto(keys, prev as int, entries.len() as int).contains(k) {
                        let j = choose|j: int|
                            0 <= j < keys.len() && #[trigger] keys[j] == k && 0 < k.len() && (k.len() < prev || (
                            k.len() == prev && j < entries.len()));
                        assert(keys[j] == k);
                    }
                    if pushed_upto(keys, len as int, 0).contains(k) {
                        let j = choose|j: int|
                            0 <= j < keys.len() && #[trigger] keys[j] == k && 0 < k.len() && (k.len() < len || (
                            k.len() == len && j < 0));
                        assert(keys[j] == k);
                    }
                }
            }
            let mut i: usize = 0;
            while i < entries.len()
                invariant
                    0 < len <= max_len,
                    i <= entries.len(),
                    lens@.len() == entries@.len(),
                    keys.len() == entries@.len(),
                    forall|j: int| 0 <= j < keys.len() ==> #[trigger] keys[j] == entries@[j].key@,
                    forall|j: int| 0 <= j < lens@.len() ==> #[trigger] lens@[j] == entries@[j].key@.len(),
                    builder_words(builder) == pushed_upto(keys, len as int, i as int),
                decreases entries.len() - i,
            {
                assert(keys[i as int] == entries@[i as int].key@);
                if lens[i] == len {
                    proof {
                        lemma_push_next(keys, len as int, i as int);
                    }
                    push_word(&mut builder, entries[i].key.as_str());
                } else {
                    assert(pushed_upto(keys, len as int, i as int) =~= pushed_upto(keys, len as int, i + 1)) by {
                        assert forall|k: Seq<char>| #[trigger] pushed_upto(keys, len as int, i + 1).contains(k)
                            implies pushed_upto(keys, len as int, i as int).contains(k) by {
                            let j = choose|j: int|
                                0 <= j < keys.len() && #[trigger] keys[j] == k && 0 < k.len() && (k.len() < len || (
                                k.len() == len && j < i + 1));
                            assert(keys[j] == k);
                        }
                        assert forall|k: Seq<char>| #[trigger] pushed_upto(keys, len as int, i as int).contains(k)
                            implies pushed_upto(keys, len as int, i + 1).contains(k) by {
                            let j = choose|j: int|
                                0 <= j < keys.len() && #[trigger] keys[j] == k && 0 < k.len() && (k.len() < len || (
                                k.len() == len && j < i));
                            assert(keys[j] == k);
                        }
                    }
                }
                i = i + 1;
            }
        }
        proof {
            assert forall|j: int| 0 <= j < keys.len() implies (#[trigger] keys[j]).len() <= max_len by {
                assert(lens@[j] == entries@[j].key@.len());
            }
            assert(pushed_upto(keys, max_len as int, entries.len() as int) =~= pushed_upto(keys, max_len + 1, 0)) by {
                assert forall|k: Seq<char>| #[trigger] pushed_upto(keys, max_len as int, entries.len() as int).contains(k)
                    <==> pushed_upto(keys, max_len + 1, 0).contains(k) by {
                    if pushed_upto(keys, max_len as int, entries.len() as int).contains(k) {
                        let j = choose|j: int|
                            0 <= j < keys.len() && #[trigger] keys[j] == k && 0 < k.len() && (k.len() < max_len || (
                            k.len() == max_len && j < entries.len()));
                        assert(keys[j] == k);
                    }
                    if pushed_upto(keys, max_len + 1, 0).contains(k) {
                        let j = choose|j: int|
                            0 <= j < keys.len() && #[trigger] keys[j] == k && 0 < k.len() && (k.len() < max_len + 1 || (
                            k.len() == max_len + 1 && j < 0));
                        assert(keys[j] == k);
                    }
                }
            }
            lemma_pushed_all(keys, max_len as int);
        }
        let trie = build_trie(&builder);
        ReferenceIndex { entries, trie }
    }

    /// Reads each source as a table and indexes all their rows, sources in order.
    /// Fails on the first source that cannot be read.
    pub fn build(sources: &Vec<Vec<u8>>) -> (r: Result<ReferenceIndex, IndexError>)
        ensures
            match r {
                Ok(ix) => {
                    &&& ix.wf()
                    &&& rows_of_sources(sources.deep_view(), sources.len() as int) is Some
                    &&& ix.entries() == entries_of(
                        rows_of_sources(sources.deep_view(), sources.len() as int)->0,
                    )
                },
                Err(IndexError::DataUnavailable { source }) => {
                    &&& source < sources.len()
                    &&& rows_of_sources(sources.deep_view(), source as int) is Some
                    &&& csv_rows(sources.deep_view()[source as int]) is None
                },
            },
    {
        let mut all: Vec<Vec<String>> = Vec::new();
        let ghost srcs = sources.deep_view();
        let mut i: usize = 0;
        while i < sources.len()
            invariant
                i <= sources.len(),
                srcs == sources.deep_view(),
                rows_of_sources(srcs, i as int) == Some(rows_view(all@)),
            decreases sources.len() - i,
        {
            assert(srcs[i as int] == sources[i as int]@);
            match read_table(sources[i].as_slice()) {
                Ok(mut table) => {
                    let ghost before = all@;
                    let ghost added = table@;
                    all.append(&mut table);
                    assert(rows_view(all@) =~= rows_view(before) + rows_view(added));
                },
                Err(_) => {
                    return Err(IndexError::DataUnavailable { source: i });
                },
            }
            i = i + 1;
        }
        Ok(ReferenceIndex::from_rows(&all))
    }

    /// The number of records indexed.
    pub fn len(&self) -> (r: usize)
        ensures
            r == self.entries().len(),
    {
        self.entries.len()
    }

    /// Whether some record carries exactly this symbol (case as read).
    pub fn contains_symbol(&self, symbol: &str) -> (r: bool)
        ensures
            r == has_symbol(self.entries(), symbol@),
    {
        let wanted = symbol.to_owned();
        let mut i: usize = 0;
        while i < self.entries.len()
            invariant
                i <= self.entries.len(),
                wanted@ == symbol@,
                forall|j: int| 0 <= j < i ==> (#[trigger] self.entries()[j]).2 != symbol@,
            decreases self.entries.len() - i,
        {
            if self.entries[i].symbol == wanted {
                assert(self.entries()[i as int].2 == symbol@);
                return true;
            }
            i = i + 1;
        }
        false
    }

    /// The last record indexed under a lowercase name.
    pub fn lookup(&self, key: &str) -> (r: Option<&IndexEntry>)
        ensures
            match r {
                Some(e) => entry_for(self.entries(), key@) == Some(e.model()),
                None => entry_for(self.entries(), key@) is None,
            },
    {
        let wanted = key.to_owned();
        let mut i: usize = self.entries.len();
        assert(self.entries().take(i as int) =~= self.entries());
        while i > 0
            invariant
                i <= self.entries.len(),
                wanted@ == key@,
                entry_for(self.entries(), key@) == entry_for(self.entries().take(i as int), key@),
            decreases i,
        {
            let ghost t = self.entries().take(i as int);
            assert(t.drop_last() =~= self.entries().take(i - 1));
            if self.entries[i - 1].key == wanted {
                return Some(&self.entries[i - 1]);
            }
            i = i - 1;
        }
        None
    }

    /// The symbol of the last record indexed under a lowercase name.
    pub fn symbol_for(&self, key: &str) -> (r: Option<String>)
        ensures
            match entry_for(self.entries(), key@) {
                Some(e) => r is Some && r->0@ == e.2,
                None => r is None,
            },
    {
        match self.lookup(key) {
            Some(e) => Some(e.symbol.clone()),
            None => None,
        }
    }

    /// The symbol for the candidate at a 0-based position; `None` when the
    /// position is out of range or nothing is indexed under that name.
    pub fn choose_candidate(&self, candidates: &Vec<String>, index: usize) -> (r: Option<String>)
        ensures
            index >= candidates.len() ==> r is None,
            index < candidates.len() ==> match entry_for(self.entries(), candidates[index as int]@) {
                Some(e) => r is Some && r->0@ == e.2,
                None => r is None,
            },
    {
        if index < candidates.len() {
            self.symbol_for(candidates[index].as_str())
        } else {
            None
        }
    }
}

proof fn lemma_entry_for_found(entries: Seq<EntryModel>, j: int, w: Seq<char>)
    requires
        0 <= j < entries.len(),
        entries[j].0 == w,
    ensures
        entry_for(entries, w) is Some,
    decreases entries.len(),
{
    if entries.last().0 != w {
        lemma_entry_for_found(entries.drop_last(), j, w);
    }
}

/// Every name the trie holds is indexed: a lookup under it finds a record.
pub proof fn lemma_indexed_word_has_entry(entries: Seq<EntryModel>, w: Seq<char>)
    requires
        key_set(entries).contains(w),
    ensures
        entry_for(entries, w) is Some,
{
    assert(keys_of(entries).contains(w));
    let j = choose|j: int| 0 <= j < keys_of(entries).len() && keys_of(entries)[j] == w;
    lemma_entry_for_found(entries, j, w);
}

/// The set of names is finite.
pub proof fn lemma_key_set_finite(entries: Seq<EntryModel>)
    ensures
        key_set(entries).finite(),
{
    let all = keys_of(entries).to_set();
    vstd::seq_lib::seq_to_set_is_finite(keys_of(entries));
    vstd::set_lib::lemma_set_subset_finite(all, key_set(entries));
}

} // verus!
