//! The prefix trie of indexed names, kept in `trie_rs`'s structures.
//!
//! The trie is built over the UTF-8 bytes of each name; its contents are
//! described here as the set of names whose byte paths end at a terminal node.
//! For valid UTF-8 a character prefix is exactly a byte prefix at a character
//! boundary, and byte order is code-point order, so the character-level
//! statements below match the byte-level behaviour.
use vstd::prelude::*;
use crate::text::{has_prefix, is_listing, strings_view};
use trie_rs::{Trie, TrieBuilder};

verus! {

#[verifier::external_type_specification]
#[verifier::external_body]
#[verifier::reject_recursive_types(Label)]
pub struct ExTrie<Label>(Trie<Label>);

#[verifier::external_type_specification]
#[verifier::external_body]
#[verifier::reject_recursive_types(Label)]
pub struct ExTrieBuilder<Label>(TrieBuilder<Label>);

/// The names that a trie builder holds as complete entries.
pub uninterp spec fn builder_words(b: TrieBuilder<u8>) -> Set<Seq<char>>;

/// The names that a built trie holds as complete entries.
pub uninterp spec fn trie_words(t: Trie<u8>) -> Set<Seq<char>>;

/// The entries after pushing `w`. The builder only walks existing nodes when `w`
/// is already a path, and marks a node terminal only when it creates it; so an
/// empty word, or one that is a prefix of an entry already held, adds nothing.
pub open spec fn after_push(words: Set<Seq<char>>, w: Seq<char>) -> Set<Seq<char>> {
    if w.len() == 0 || exists|x: Seq<char>| #[trigger] words.contains(x) && has_prefix(x, w) {
        words
    } else {
        words.insert(w)
    }
}

/// The entries of `words` that start with `p`.
pub open spec fn entries_with_prefix(words: Set<Seq<char>>, p: Seq<char>) -> Set<Seq<char>> {
    words.filter(|w: Seq<char>| has_prefix(w, p))
}

/// Relies on `TrieBuilder::new`: a builder with no entries.
#[verifier::external_body]
pub(crate) fn new_builder() -> (b: TrieBuilder<u8>)
    ensures
        builder_words(b) == Set::<Seq<char>>::empty(),
{
    TrieBuilder::new()
}

/// Relies on `TrieBuilder::push`, which walks or creates one node per byte of
/// the word and sets the terminal mark only on a node it has just created.
#[verifier::external_body]
pub(crate) fn push_word(b: &mut TrieBuilder<u8>, w: &str)
    ensures
        builder_words(*final(b)) == after_push(builder_words(*old(b)), w@),
{
    b.push(w)
}

/// Relies on `TrieBuilder::build`: the trie holds the builder's entries.
#[verifier::external_body]
pub(crate) fn build_trie(b: &TrieBuilder<u8>) -> (t: Trie<u8>)
    ensures
        trie_words(t) == builder_words(*b),
{
    b.build()
}

/// Relies on `Trie::predictive_search`: every entry that starts with the query,
/// in ascending order (children are kept sorted by label, and a node's own
/// entry comes before those below it). It panics on an empty query.
#[verifier::external_body]
pub(crate) fn search_prefix(t: &Trie<u8>, p: &str) -> (r: Vec<String>)
    requires
        p@.len() > 0,
    ensures
        is_listing(strings_view(r@), entries_with_prefix(trie_words(*t), p@)),
{
    t.predictive_search(p).into_iter().map(|w| String::from_utf8_lossy(&w).into_owned()).collect()
}

} // verus!
