//! What this library takes on trust from the prefix tree of `trie_rs`, and from `String` where
//! it is made from bytes.

use crate::order::lex_lt;
use std::string::FromUtf8Error;
use trie_rs::{Trie, TrieBuilder};
use vstd::prelude::*;
use vstd::utf8::{decode_utf8, valid_utf8};

verus! {

/// `trie_rs::Trie`: a prefix tree, held as it is. Nothing is known of a tree but what
/// `trie_entries` names.
#[verifier::external_type_specification]
#[verifier::external_body]
#[verifier::reject_recursive_types(Label)]
pub struct ExTrie<Label>(Trie<Label>);

/// `trie_rs::TrieBuilder`: the tree while words are pushed into it, held as it is. Nothing
/// is known of a builder but what `builder_entries` names.
#[verifier::external_type_specification]
#[verifier::external_body]
#[verifier::reject_recursive_types(Label)]
pub struct ExTrieBuilder<Label>(TrieBuilder<Label>);

/// `std::string::FromUtf8Error`: what `String::from_utf8` hands back for bytes that are not
/// UTF-8. Nothing is read from it.
#[verifier::external_type_specification]
#[verifier::external_body]
pub struct ExFromUtf8Error(FromUtf8Error);

/// The entries of a prefix tree: the byte strings that end at a node marked as the end of a
/// word.
pub uninterp spec fn trie_entries(trie: Trie<u8>) -> Set<Seq<u8>>;

/// The entries that a builder has taken so far.
pub uninterp spec fn builder_entries(builder: TrieBuilder<u8>) -> Set<Seq<u8>>;

/// Whether a push of `word` adds it to `entries`. The builder marks the end of a word only at
/// a node that the push itself creates, so a word whose whole path is there already, which is
/// the case exactly when it is a prefix of an entry, is not taken; nor is the empty word, for
/// which no node stands.
pub open spec fn push_takes(entries: Set<Seq<u8>>, word: Seq<u8>) -> bool {
    &&& word.len() > 0
    &&& forall|e: Seq<u8>| entries.contains(e) ==> !word.is_prefix_of(e)
}

/// What a predictive search hands back: the entries that start with `query`, each one once,
/// in the lexicographic order of bytes.
pub open spec fn is_search_result(
    entries: Set<Seq<u8>>,
    query: Seq<u8>,
    found: Seq<Seq<u8>>,
) -> bool {
    &&& forall|i: int|
        0 <= i < found.len() ==> entries.contains(#[trigger] found[i]) && query.is_prefix_of(
            found[i],
        )
    &&& forall|e: Seq<u8>|
        entries.contains(e) && query.is_prefix_of(e) ==> exists|i: int|
            0 <= i < found.len() && #[trigger] found[i] == e
    &&& forall|i: int, j: int|
        0 <= i < j < found.len() ==> lex_lt(#[trigger] found[i], #[trigger] found[j])
}

/// `TrieBuilder::new`: the builder starts from the root alone, so it holds no entry.
#[verifier::external_body]
pub(crate) fn builder_new() -> (builder: TrieBuilder<u8>)
    ensures
        builder_entries(builder) == Set::<Seq<u8>>::empty(),
{
    TrieBuilder::new()
}

/// `TrieBuilder::push`: walks the path of `word` from the root, creating the nodes that are
/// missing, and marks the last node as the end of a word if the push created it. The word
/// becomes an entry where `push_takes` holds, and nothing changes where it does not.
#[verifier::external_body]
pub(crate) fn builder_push(builder: &mut TrieBuilder<u8>, word: &[u8])
    ensures
        builder_entries(*final(builder)) == if push_takes(builder_entries(*old(builder)), word@) {
            builder_entries(*old(builder)).insert(word@)
        } else {
            builder_entries(*old(builder))
        },
{
    builder.push(word)
}

/// `TrieBuilder::build`: the tree holds the entries of the builder.
#[verifier::external_body]
pub(crate) fn builder_build(builder: &TrieBuilder<u8>) -> (trie: Trie<u8>)
    ensures
        trie_entries(trie) == builder_entries(*builder),
{
    builder.build()
}

/// `Trie::predictive_search`: walks down the path of `query` and collects, depth first and
/// with the children of a node in the order of their bytes, every entry below it. It panics
/// on the empty query.
#[verifier::external_body]
pub(crate) fn trie_search(trie: &Trie<u8>, query: &[u8]) -> (found: Vec<Vec<u8>>)
    requires
        query@.len() > 0,
    ensures
        is_search_result(trie_entries(*trie), query@, found.deep_view()),
{
    trie.predictive_search(query)
}

/// `String::from_utf8`: succeeds exactly on valid UTF-8, and the string then holds the
/// characters that the bytes encode.
pub assume_specification[ String::from_utf8 ](vec: Vec<u8>) -> (r: Result<String, FromUtf8Error>)
    ensures
        r is Ok <==> valid_utf8(vec@),
        r is Ok ==> r->Ok_0@ == decode_utf8(vec@),
;

} // verus!
