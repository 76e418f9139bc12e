//! Names as texts: their order, which is that of their UTF-8 bytes, and their prefixes.

use crate::order::{
    lemma_lex_lt_asymmetric, lemma_lex_lt_irreflexive, lemma_lex_lt_total,
    lemma_lex_lt_transitive, lex_lt, rank_bytes, Rank,
};
use vstd::prelude::*;
use vstd::utf8::*;

verus! {

/// `a` comes strictly before `b` in the order of names: the lexicographic order of their UTF-8
/// bytes, in which `str` compares.
pub open spec fn name_lt(a: Seq<char>, b: Seq<char>) -> bool {
    lex_lt(encode_utf8(a), encode_utf8(b))
}

/// Each name of the sequence comes strictly before the next one.
pub open spec fn increasing(names: Seq<Seq<char>>) -> bool {
    forall|i: int, j: int| 0 <= i < j < names.len() ==> name_lt(#[trigger] names[i], #[trigger] names[j])
}

/// Two texts with the same UTF-8 bytes are the same text.
pub proof fn lemma_utf8_injective(a: Seq<char>, b: Seq<char>)
    requires
        encode_utf8(a) == encode_utf8(b),
    ensures
        a == b,
{
    encode_utf8_decode_utf8(a);
    encode_utf8_decode_utf8(b);
}

proof fn lemma_first_scalar_of_prefix(x: Seq<u8>, y: Seq<u8>)
    requires
        x.is_prefix_of(y),
        x.len() > 0,
        length_of_first_scalar(x) <= x.len(),
    ensures
        decode_first_scalar(x) == decode_first_scalar(y),
        length_of_first_scalar(x) == length_of_first_scalar(y),
{
    assert forall|i: int| 0 <= i < x.len() implies x[i] == y[i] by {
        assert(x[i] == y.subrange(0, x.len() as int)[i]);
    }
}

/// One text is a prefix of another exactly when its UTF-8 bytes are a prefix of the other's.
pub proof fn lemma_prefix_utf8(p: Seq<char>, w: Seq<char>)
    ensures
        p.is_prefix_of(w) <==> encode_utf8(p).is_prefix_of(encode_utf8(w)),
    decreases p.len(),
{
    let x = encode_utf8(p);
    let y = encode_utf8(w);
    if p.len() == 0 {
        assert(p =~= w.subrange(0, 0));
        assert(x =~= y.subrange(0, 0));
    } else {
        let head = encode_scalar(p[0] as u32);
        assert(head.len() >= 1);
        if p.is_prefix_of(w) {
            assert(p[0] == w.subrange(0, p.len() as int)[0]);
            assert(p.drop_first() =~= w.drop_first().subrange(0, p.len() - 1)) by {
                assert forall|i: int| 0 <= i < p.len() - 1 implies p.drop_first()[i]
                    == w.drop_first().subrange(0, p.len() - 1)[i] by {
                    assert(p[i + 1] == w.subrange(0, p.len() as int)[i + 1]);
                }
            }
            lemma_prefix_utf8(p.drop_first(), w.drop_first());
            let xt = encode_utf8(p.drop_first());
            let yt = encode_utf8(w.drop_first());
            assert(x =~= y.subrange(0, x.len() as int)) by {
                assert forall|i: int| 0 <= i < x.len() implies x[i] == y[i] by {
                    if i >= head.len() {
                        assert(xt[i - head.len()] == yt.subrange(0, xt.len() as int)[i - head.len()]);
                    }
                }
            }
        }
        if x.is_prefix_of(y) {
            assert(w.len() > 0);
            encode_utf8_first_scalar(p);
            encode_utf8_first_scalar(w);
            lemma_first_scalar_of_prefix(x, y);
            char_u32_cast(p[0], p[0] as u32);
            char_u32_cast(w[0], w[0] as u32);
            assert(p[0] == w[0]);
            let xt = encode_utf8(p.drop_first());
            let yt = encode_utf8(w.drop_first());
            assert(xt =~= yt.subrange(0, xt.len() as int)) by {
                assert forall|i: int| 0 <= i < xt.len() implies xt[i] == yt[i] by {
                    assert(x[i + head.len()] == y.subrange(0, x.len() as int)[i + head.len()]);
                }
            }
            lemma_prefix_utf8(p.drop_first(), w.drop_first());
            assert(p =~= w.subrange(0, p.len() as int)) by {
                assert forall|i: int| 0 <= i < p.len() implies p[i] == w[i] by {
                    if i > 0 {
                        assert(p.drop_first()[i - 1] == w.drop_first().subrange(
                            0,
                            p.len() - 1,
                        )[i - 1]);
                    }
                }
            }
        }
    }
}

/// Of two names at most one comes before the other, and none before itself.
pub proof fn lemma_name_lt_asymmetric(a: Seq<char>, b: Seq<char>)
    requires
        name_lt(a, b),
    ensures
        !name_lt(b, a),
        a != b,
{
    lemma_lex_lt_asymmetric(encode_utf8(a), encode_utf8(b));
    lemma_lex_lt_irreflexive(encode_utf8(a));
}

/// An increasing sequence is fixed by the names that occur in it: two increasing sequences
/// with the same members are the same sequence.
pub proof fn lemma_increasing_unique(a: Seq<Seq<char>>, b: Seq<Seq<char>>)
    requires
        increasing(a),
        increasing(b),
        forall|x: Seq<char>| a.contains(x) <==> b.contains(x),
    ensures
        a == b,
    decreases a.len(),
{
    if a.len() == 0 {
        if b.len() > 0 {
            assert(b.contains(b[0]));
        }
        assert(a =~= b);
    } else if b.len() == 0 {
        assert(a.contains(a[0]));
    } else {
        assert(a.contains(a[0]));
        assert(b.contains(b[0]));
        let j = b.index_of(a[0]);
        let i = a.index_of(b[0]);
        if a[0] != b[0] {
            assert(name_lt(b[0], b[j]));
            assert(name_lt(a[0], a[i]));
            lemma_name_lt_asymmetric(a[0], b[0]);
        }
        let at = a.drop_first();
        let bt = b.drop_first();
        assert forall|x: Seq<char>| at.contains(x) <==> bt.contains(x) by {
            if at.contains(x) {
                let k = at.index_of(x);
                assert(a[k + 1] == x);
                assert(name_lt(a[0], a[k + 1]));
                lemma_name_lt_asymmetric(a[0], x);
                assert(a.contains(x));
                let m = b.index_of(x);
                assert(bt[m - 1] == x);
            }
            if bt.contains(x) {
                let k = bt.index_of(x);
                assert(b[k + 1] == x);
                assert(name_lt(b[0], b[k + 1]));
                lemma_name_lt_asymmetric(b[0], x);
                assert(b.contains(x));
                let m = a.index_of(x);
                assert(at[m - 1] == x);
            }
        }
        assert(increasing(at)) by {
            assert forall|i: int, j: int| 0 <= i < j < at.len() implies name_lt(
                #[trigger] at[i],
                #[trigger] at[j],
            ) by {
                assert(name_lt(a[i + 1], a[j + 1]));
            }
        }
        assert(increasing(bt)) by {
            assert forall|i: int, j: int| 0 <= i < j < bt.len() implies name_lt(
                #[trigger] bt[i],
                #[trigger] bt[j],
            ) by {
                assert(name_lt(b[i + 1], b[j + 1]));
            }
        }
        lemma_increasing_unique(at, bt);
        assert(a =~= b) by {
            assert(a.len() == at.len() + 1);
            assert forall|i: int| 0 <= i < a.len() implies a[i] == b[i] by {
                if i > 0 {
                    assert(at[i - 1] == bt[i - 1]);
                }
            }
        }
    }
}

/// `s` holds the names that occur in `words`, each one once, in increasing order.
pub open spec fn is_ordering_of(s: Seq<Seq<char>>, words: Seq<Seq<char>>) -> bool {
    &&& increasing(s)
    &&& forall|x: Seq<char>| s.contains(x) <==> words.contains(x)
}

/// The names that occur in `words`, each one once, in increasing order.
pub open spec fn in_order(words: Seq<Seq<char>>) -> Seq<Seq<char>> {
    choose|s: Seq<Seq<char>>| is_ordering_of(s, words)
}

/// The order of names is total: of two different names one comes before the other.
pub proof fn lemma_name_lt_total(a: Seq<char>, b: Seq<char>)
    ensures
        a == b || name_lt(a, b) || name_lt(b, a),
{
    lemma_lex_lt_total(encode_utf8(a), encode_utf8(b));
    if encode_utf8(a) == encode_utf8(b) {
        lemma_utf8_injective(a, b);
    }
}

/// How many names at the head of `s` come before `x`.
pub open spec fn rank_in(s: Seq<Seq<char>>, x: Seq<char>) -> int
    decreases s.len(),
{
    if s.len() == 0 || !name_lt(s[0], x) {
        0
    } else {
        1 + rank_in(s.drop_first(), x)
    }
}

proof fn lemma_rank_in(s: Seq<Seq<char>>, x: Seq<char>)
    requires
        increasing(s),
        !s.contains(x),
    ensures
        0 <= rank_in(s, x) <= s.len(),
        forall|i: int| 0 <= i < rank_in(s, x) ==> name_lt(#[trigger] s[i], x),
        forall|i: int| rank_in(s, x) <= i < s.len() ==> name_lt(x, #[trigger] s[i]),
    decreases s.len(),
{
    if s.len() == 0 {
    } else if !name_lt(s[0], x) {
        assert(s.contains(s[0]));
        lemma_name_lt_total(s[0], x);
        assert forall|i: int| 0 <= i < s.len() implies name_lt(x, #[trigger] s[i]) by {
            if i > 0 {
                assert(name_lt(s[0], s[i]));
                lemma_lex_lt_transitive(encode_utf8(x), encode_utf8(s[0]), encode_utf8(s[i]));
            }
        }
    } else {
        let t = s.drop_first();
        assert(increasing(t)) by {
            assert forall|i: int, j: int| 0 <= i < j < t.len() implies name_lt(
                #[trigger] t[i],
                #[trigger] t[j],
            ) by {
                assert(name_lt(s[i + 1], s[j + 1]));
            }
        }
        assert(!t.contains(x)) by {
            if t.contains(x) {
                let k = t.index_of(x);
                assert(s[k + 1] == x);
            }
        }
        lemma_rank_in(t, x);
        assert forall|i: int| 0 <= i < rank_in(s, x) implies name_lt(#[trigger] s[i], x) by {
            if i > 0 {
                assert(name_lt(t[i - 1], x));
            }
        }
        assert forall|i: int| rank_in(s, x) <= i < s.len() implies name_lt(
            x,
            #[trigger] s[i],
        ) by {
            assert(name_lt(x, t[i - 1]));
        }
    }
}

/// Any names can be put in order.
pub proof fn lemma_ordering_exists(words: Seq<Seq<char>>) -> (s: Seq<Seq<char>>)
    ensures
        is_ordering_of(s, words),
    decreases words.len(),
{
    if words.len() == 0 {
        Seq::empty()
    } else {
        let init = words.drop_last();
        let x = words.last();
        let t = lemma_ordering_exists(init);
        if t.contains(x) {
            assert forall|y: Seq<char>| t.contains(y) <==> words.contains(y) by {
                if t.contains(y) {
                    let k = init.index_of(y);
                    assert(words[k] == y);
                }
                if words.contains(y) {
                    let k = words.index_of(y);
                    if k < init.len() {
                        assert(init[k] == y);
                    }
                }
            }
            t
        } else {
            lemma_rank_in(t, x);
            let at = rank_in(t, x);
            let s = t.insert(at, x);
            assert(increasing(s)) by {
                assert forall|i: int, j: int| 0 <= i < j < s.len() implies name_lt(
                    #[trigger] s[i],
                    #[trigger] s[j],
                ) by {
                    let oi = if i < at { i } else { i - 1 };
                    let oj = if j < at { j } else { j - 1 };
                    if i == at {
                        assert(s[j] == t[oj]);
                    } else if j == at {
                        assert(s[i] == t[oi]);
                    } else {
                        assert(s[i] == t[oi]);
                        assert(s[j] == t[oj]);
                    }
                }
            }
            assert forall|y: Seq<char>| s.contains(y) <==> words.contains(y) by {
                if s.contains(y) {
                    let k = s.index_of(y);
                    if k < at {
                        assert(t[k] == y);
                        assert(t.contains(y));
                        let m = init.index_of(y);
                        assert(words[m] == y);
                    } else if k > at {
                        assert(t[k - 1] == y);
                        assert(t.contains(y));
                        let m = init.index_of(y);
                        assert(words[m] == y);
                    } else {
                        assert(words[words.len() - 1] == y);
                    }
                }
                if words.contains(y) {
                    let k = words.index_of(y);
                    if k < init.len() {
                        assert(init[k] == y);
                        assert(init.contains(y));
                        let m = t.index_of(y);
                        if m < at {
                            assert(s[m] == y);
                        } else {
                            assert(s[m + 1] == y);
                        }
                    } else {
                        assert(s[at] == y);
                    }
                }
            }
            s
        }
    }
}

/// The names in order hold the names that were given, each one once, and increase.
pub proof fn lemma_in_order_is_ordering(words: Seq<Seq<char>>)
    ensures
        is_ordering_of(in_order(words), words),
{
    let s = lemma_ordering_exists(words);
}

/// There is one way only to put names in order.
pub proof fn lemma_in_order(s: Seq<Seq<char>>, words: Seq<Seq<char>>)
    requires
        is_ordering_of(s, words),
    ensures
        in_order(words) == s,
{
    lemma_increasing_unique(in_order(words), s);
}

/// The names of `words` that start with `prefix`, in the order in which `words` holds them.
pub open spec fn matching(words: Seq<Seq<char>>, prefix: Seq<char>) -> Seq<Seq<char>>
    decreases words.len(),
{
    if words.len() == 0 {
        Seq::empty()
    } else {
        let before = matching(words.drop_last(), prefix);
        if prefix.is_prefix_of(words.last()) {
            before.push(words.last())
        } else {
            before
        }
    }
}

/// A name is among the matching ones exactly when it is one of the words and starts with the
/// prefix.
pub proof fn lemma_matching_member(words: Seq<Seq<char>>, prefix: Seq<char>, x: Seq<char>)
    ensures
        matching(words, prefix).contains(x) <==> (words.contains(x) && prefix.is_prefix_of(x)),
    decreases words.len(),
{
    if words.len() == 0 {
    } else {
        let init = words.drop_last();
        let before = matching(init, prefix);
        let all = matching(words, prefix);
        lemma_matching_member(init, prefix, x);
        if all.contains(x) {
            let k = all.index_of(x);
            if k < before.len() {
                assert(before[k] == x);
                assert(before.contains(x));
                assert(init.contains(x));
                let m = init.index_of(x);
                assert(words[m] == x);
            } else {
                assert(words[words.len() - 1] == x);
            }
        }
        if words.contains(x) && prefix.is_prefix_of(x) {
            let m = words.index_of(x);
            if m < init.len() {
                assert(init[m] == x);
                assert(init.contains(x));
                assert(before.contains(x));
                let k = before.index_of(x);
                assert(all[k] == x);
            } else {
                assert(all[all.len() - 1] == x);
            }
        }
    }
}

/// The matching names of an increasing sequence increase too.
pub proof fn lemma_matching_increasing(words: Seq<Seq<char>>, prefix: Seq<char>)
    requires
        increasing(words),
    ensures
        increasing(matching(words, prefix)),
    decreases words.len(),
{
    if words.len() == 0 {
    } else {
        let init = words.drop_last();
        let before = matching(init, prefix);
        let all = matching(words, prefix);
        assert(increasing(init)) by {
            assert forall|i: int, j: int| 0 <= i < j < init.len() implies name_lt(
                #[trigger] init[i],
                #[trigger] init[j],
            ) by {
                assert(name_lt(words[i], words[j]));
            }
        }
        lemma_matching_increasing(init, prefix);
        assert forall|i: int, j: int| 0 <= i < j < all.len() implies name_lt(
            #[trigger] all[i],
            #[trigger] all[j],
        ) by {
            if j < before.len() {
                assert(name_lt(before[i], before[j]));
            } else {
                assert(before.contains(before[i]));
                lemma_matching_member(init, prefix, before[i]);
                assert(init.contains(before[i]));
                let m = init.index_of(before[i]);
                assert(words[m] == before[i]);
                assert(name_lt(words[m], words[words.len() - 1]));
            }
        }
    }
}

/// How one name stands to another in the order of names.
pub fn rank_names(a: &str, b: &str) -> (r: Rank)
    ensures
        r == Rank::Before <==> name_lt(a@, b@),
        r == Rank::Same <==> a@ == b@,
        r == Rank::After <==> name_lt(b@, a@),
{
    proof {
        if encode_utf8(a@) == encode_utf8(b@) {
            lemma_utf8_injective(a@, b@);
        }
    }
    rank_bytes(a.as_bytes(), b.as_bytes())
}

/// Whether two names are the same text.
pub fn same_name(a: &str, b: &str) -> (r: bool)
    ensures
        r == (a@ == b@),
{
    rank_names(a, b) == Rank::Same
}

} // verus!
