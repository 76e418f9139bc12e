//! The prefix index: a prefix tree over a set of names, asked for the names that start with a
//! given text.

use crate::names::{
    in_order, increasing, lemma_in_order, lemma_increasing_unique, lemma_matching_increasing,
    lemma_matching_member, lemma_prefix_utf8, lemma_utf8_injective, matching, name_lt,
};
use crate::order::lemma_prefix_not_after;
use crate::registry::Registry;
use crate::trie::{
    builder_build, builder_entries, builder_new, builder_push, is_search_result, push_takes,
    trie_entries, trie_search,
};
use trie_rs::Trie;
use vstd::prelude::*;
use vstd::slice::slice_to_vec;
use vstd::utf8::{
    decode_utf8, encode_scalar, encode_utf8, encode_utf8_decode_utf8, encode_utf8_valid_utf8,
    valid_utf8,
};

verus! {

/// The UTF-8 bytes of the first `n` names, the empty name left out: a prefix tree has no
/// node at which the empty name could end.
pub open spec fn encodings(names: Seq<Seq<char>>, n: int) -> Set<Seq<u8>> {
    Set::new(
        |e: Seq<u8>|
            exists|j: int| 0 <= j < n && (#[trigger] names[j]).len() > 0 && encode_utf8(names[j]) == e,
    )
}

/// A text that is not empty has UTF-8 bytes.
pub proof fn lemma_encoding_not_empty(name: Seq<char>)
    requires
        name.len() > 0,
    ensures
        encode_utf8(name).len() > 0,
{
    assert(encode_scalar(name[0] as u32).len() >= 1);
}

/// The text that valid UTF-8 bytes encode.
pub fn text_of(bytes: &Vec<u8>) -> (text: String)
    requires
        valid_utf8(bytes@),
    ensures
        text@ == decode_utf8(bytes@),
{
    match String::from_utf8(slice_to_vec(bytes.as_slice())) {
        Ok(text) => text,
        Err(_) => String::new(),
    }
}

/// A prefix tree over names, with the names it was built from.
pub struct PrefixIndex {
    trie: Trie<u8>,
    names: Ghost<Seq<Seq<char>>>,
}

impl View for PrefixIndex {
    type V = Seq<Seq<char>>;

    /// The names that the index was built from, in increasing order.
    closed spec fn view(&self) -> Seq<Seq<char>> {
        self.names@
    }
}

impl PrefixIndex {
    /// The byte strings that the tree holds.
    pub closed spec fn entries(&self) -> Set<Seq<u8>> {
        trie_entries(self.trie)
    }

    /// The names increase, and the tree holds the bytes of each but the empty one.
    pub open spec fn wf(&self) -> bool {
        &&& increasing(self@)
        &&& self.entries() == encodings(self@, self@.len() as int)
    }

    /// The index over no name.
    pub fn empty() -> (r: Self)
        ensures
            r.wf(),
            r@ == Seq::<Seq<char>>::empty(),
    {
        let builder = builder_new();
        let trie = builder_build(&builder);
        let r = PrefixIndex { trie, names: Ghost(Seq::empty()) };
        assert(r.entries() =~= encodings(r@, 0));
        r
    }

    /// The index over names that are given in increasing order.
    pub fn build(names: &Vec<String>) -> (r: Self)
        requires
            increasing(names.deep_view()),
        ensures
            r.wf(),
            r@ == names.deep_view(),
    {
        let ghost all = names.deep_view();
        let mut builder = builder_new();
        let mut i: usize = 0;
        assert(builder_entries(builder) =~= encodings(all, 0));
        while i < names.len()
            invariant
                i <= names.len(),
                all == names.deep_view(),
                increasing(all),
                builder_entries(builder) == encodings(all, i as int),
            decreases names.len() - i,
        {
            let word = names[i].as_str().as_bytes();
            let ghost before = builder_entries(builder);
            proof {
                assert(word@ == encode_utf8(all[i as int]));
                if all[i as int].len() > 0 {
                    lemma_encoding_not_empty(all[i as int]);
                    assert forall|e: Seq<u8>| before.contains(e) implies !word@.is_prefix_of(
                        e,
                    ) by {
                        let j = choose|j: int|
                            0 <= j < i && (#[trigger] all[j]).len() > 0 && encode_utf8(all[j]) == e;
                        assert(name_lt(all[j], all[i as int]));
                        if word@.is_prefix_of(e) {
                            lemma_prefix_not_after(word@, e);
                        }
                    }
                    assert(push_takes(before, word@));
                } else {
                    assert(word@.len() == 0);
                    assert(!push_takes(before, word@));
                }
            }
            builder_push(&mut builder, word);
            proof {
                let after = builder_entries(builder);
                assert(after =~= encodings(all, i + 1)) by {
                    assert forall|e: Seq<u8>| after.contains(e) implies encodings(
                        all,
                        i + 1,
                    ).contains(e) by {
                        if before.contains(e) {
                            let j = choose|j: int|
                                0 <= j < i && (#[trigger] all[j]).len() > 0 && encode_utf8(all[j])
                                    == e;
                            assert(0 <= j < i + 1 && all[j].len() > 0 && encode_utf8(all[j]) == e);
                        } else {
                            assert(all[i as int].len() > 0 && encode_utf8(all[i as int]) == e);
                        }
                    }
                    assert forall|e: Seq<u8>| encodings(all, i + 1).contains(
                        e,
                    ) implies after.contains(e) by {
                        let j = choose|j: int|
                            0 <= j < i + 1 && (#[trigger] all[j]).len() > 0 && encode_utf8(all[j])
                                == e;
                        if j < i {
                            assert(before.contains(e));
                        }
                    }
                }
            }
            i += 1;
        }
        let trie = builder_build(&builder);
        PrefixIndex { trie, names: Ghost(all) }
    }

    /// The index over the given words, in whatever order they come and however often.
    pub fn of(words: &Vec<String>) -> (r: Self)
        ensures
            r.wf(),
            r@ == in_order(words.deep_view()),
    {
        let ghost given = words.deep_view();
        let mut set: Registry<()> = Registry::new();
        let mut i: usize = 0;
        while i < words.len()
            invariant
                i <= words.len(),
                given == words.deep_view(),
                set.wf(),
                forall|x: Seq<char>|
                    set@.dom().contains(x) <==> given.take(i as int).contains(x),
            decreases words.len() - i,
        {
            let ghost before = set@;
            set.register(words[i].as_str(), ());
            proof {
                assert forall|x: Seq<char>| set@.dom().contains(x) <==> given.take(
                    i + 1,
                ).contains(x) by {
                    if given.take(i + 1).contains(x) {
                        let k = given.take(i + 1).index_of(x);
                        if k < i {
                            assert(given.take(i as int)[k] == x);
                        }
                    }
                    if before.dom().contains(x) {
                        let k = given.take(i as int).index_of(x);
                        assert(given.take(i + 1)[k] == x);
                    }
                    if x == given[i as int] {
                        assert(given.take(i + 1)[i as int] == x);
                    }
                }
            }
            i += 1;
        }
        assert(given.take(i as int) =~= given);
        let names = set.name_list();
        let r = Self::build(&names);
        proof {
            assert forall|x: Seq<char>| r@.contains(x) <==> given.contains(x) by {
                assert(set@.dom().contains(x) <==> set.names().contains(x));
            }
            lemma_in_order(r@, given);
        }
        r
    }

    /// The names of the index that start with `prefix`, in increasing order. The prefix tree
    /// cannot be asked for the empty prefix.
    pub fn search(&self, prefix: &str) -> (r: Vec<String>)
        requires
            self.wf(),
            prefix@.len() > 0,
        ensures
            r.deep_view() == matching(self@, prefix@),
    {
        let ghost names = self@;
        let query = prefix.as_bytes();
        proof {
            lemma_encoding_not_empty(prefix@);
        }
        let found = trie_search(&self.trie, query);
        let ghost hits = found.deep_view();
        let mut out: Vec<String> = Vec::new();
        let mut i: usize = 0;
        while i < found.len()
            invariant
                self.wf(),
                names == self@,
                hits == found.deep_view(),
                is_search_result(self.entries(), query@, hits),
                i <= found.len(),
                out.len() == i,
                forall|k: int| 0 <= k < i ==> encode_utf8(#[trigger] out.deep_view()[k]) == hits[k],
            decreases found.len() - i,
        {
            let ghost done = out.deep_view();
            proof {
                assert(self.entries().contains(hits[i as int]));
                let j = choose|j: int|
                    0 <= j < names.len() && (#[trigger] names[j]).len() > 0 && encode_utf8(names[j])
                        == hits[i as int];
                encode_utf8_valid_utf8(names[j]);
                encode_utf8_decode_utf8(names[j]);
                assert(found[i as int]@ == hits[i as int]);
            }
            let text = text_of(&found[i]);
            out.push(text);
            assert(out.deep_view() =~= done.push(text@));
            i += 1;
        }
        proof {
            let texts = out.deep_view();
            let wanted = matching(names, prefix@);
            lemma_matching_increasing(names, prefix@);
            assert(increasing(texts)) by {
                assert forall|a: int, b: int| 0 <= a < b < texts.len() implies name_lt(
                    #[trigger] texts[a],
                    #[trigger] texts[b],
                ) by {
                    assert(encode_utf8(texts[a]) == hits[a]);
                    assert(encode_utf8(texts[b]) == hits[b]);
                }
            }
            assert forall|x: Seq<char>| texts.contains(x) <==> wanted.contains(x) by {
                lemma_matching_member(names, prefix@, x);
                lemma_prefix_utf8(prefix@, x);
                if texts.contains(x) {
                    let k = texts.index_of(x);
                    assert(encode_utf8(texts[k]) == hits[k]);
                    assert(self.entries().contains(hits[k]));
                    let j = choose|j: int|
                        0 <= j < names.len() && (#[trigger] names[j]).len() > 0 && encode_utf8(
                            names[j],
                        ) == hits[k];
                    lemma_utf8_injective(names[j], x);
                    assert(names.contains(x));
                }
                if wanted.contains(x) {
                    let j = names.index_of(x);
                    assert(names[j] == x);
                    assert(x.len() > 0);
                    assert(self.entries().contains(encode_utf8(x)));
                    let k = choose|k: int| 0 <= k < hits.len() && #[trigger] hits[k] == encode_utf8(x);
                    assert(encode_utf8(texts[k]) == hits[k]);
                    lemma_utf8_injective(texts[k], x);
                }
            }
            lemma_increasing_unique(texts, wanted);
        }
        out
    }
}

} // verus!
