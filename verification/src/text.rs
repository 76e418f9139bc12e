//! Characters, blank lines and whitespace-separated words.

use vstd::prelude::*;
use vstd::std_specs::iter::IteratorSpec;

verus! {

/// Whether `c` has the Unicode property White_Space.
pub open spec fn is_whitespace(c: char) -> bool {
    let u = c as u32;
    ||| 0x09 <= u <= 0x0D
    ||| u == 0x20
    ||| u == 0x85
    ||| u == 0xA0
    ||| u == 0x1680
    ||| 0x2000 <= u <= 0x200A
    ||| u == 0x2028
    ||| u == 0x2029
    ||| u == 0x202F
    ||| u == 0x205F
    ||| u == 0x3000
}

/// Tests a character for the Unicode property White_Space.
pub fn char_is_whitespace(c: char) -> (b: bool)
    ensures
        b == is_whitespace(c),
{
    let u: u32 = c as u32;
    (0x09 <= u && u <= 0x0D) || u == 0x20 || u == 0x85 || u == 0xA0 || u == 0x1680 || (0x2000 <= u
        && u <= 0x200A) || u == 0x2028 || u == 0x2029 || u == 0x202F || u == 0x205F || u == 0x3000
}

/// The characters of a string, one by one.
pub fn chars_of(s: &str) -> (v: Vec<char>)
    ensures
        v@ == s@,
{
    broadcast use vstd::string::group_string_axioms;

    let mut v: Vec<char> = Vec::new();
    let mut it = s.chars();
    loop
        invariant
            it.obeys_prophetic_iter_laws(),
            it.decrease() is Some,
            v@ + it.remaining() == s@,
        decreases it.decrease()->0,
    {
        let ghost before = it.remaining();
        match it.next() {
            Some(c) => {
                assert(v@.push(c) + before.drop_first() =~= v@ + before);
                v.push(c);
            },
            None => {
                assert(v@ + before =~= v@);
                return v;
            },
        }
    }
}

/// A line is blank when it holds nothing but whitespace.
pub open spec fn is_blank(s: Seq<char>) -> bool {
    forall|i: int| 0 <= i < s.len() ==> is_whitespace(#[trigger] s[i])
}

/// Whether a line holds nothing but whitespace.
pub fn str_is_blank(s: &str) -> (b: bool)
    ensures
        b == is_blank(s@),
{
    let cs = chars_of(s);
    let mut i: usize = 0;
    while i < cs.len()
        invariant
            cs@ == s@,
            forall|j: int| 0 <= j < i ==> is_whitespace(#[trigger] s@[j]),
        decreases cs.len() - i,
    {
        if !char_is_whitespace(cs[i]) {
            return false;
        }
        i += 1;
    }
    true
}

/// Whether a line holds the space character U+0020.
pub fn str_contains_space(s: &str) -> (b: bool)
    ensures
        b == s@.contains(' '),
{
    let cs = chars_of(s);
    let mut i: usize = 0;
    while i < cs.len()
        invariant
            cs@ == s@,
            forall|j: int| 0 <= j < i ==> s@[j] != ' ',
        decreases cs.len() - i,
    {
        if cs[i] == ' ' {
            return true;
        }
        i += 1;
    }
    false
}

/// A line ends with a space when its last character is U+0020.
pub open spec fn ends_with_space(s: Seq<char>) -> bool {
    s.len() > 0 && s.last() == ' '
}

/// Whether the last character of a line is the space character U+0020.
pub fn str_ends_with_space(s: &str) -> (b: bool)
    ensures
        b == ends_with_space(s@),
{
    let cs = chars_of(s);
    cs.len() > 0 && cs[cs.len() - 1] == ' '
}

/// The words of a line: its maximal runs of characters that are not whitespace, from left to
/// right. Read character by character: whitespace changes nothing, a character after another
/// one of a word lengthens the last word, and any other character starts a new word.
pub open spec fn words(s: Seq<char>) -> Seq<Seq<char>>
    decreases s.len(),
{
    if s.len() == 0 {
        Seq::empty()
    } else {
        let init = s.drop_last();
        let before = words(init);
        if is_whitespace(s.last()) {
            before
        } else if init.len() > 0 && !is_whitespace(init.last()) {
            before.drop_last().push(before.last().push(s.last()))
        } else {
            before.push(seq![s.last()])
        }
    }
}

/// No word of a line is empty.
pub proof fn lemma_words_not_empty(s: Seq<char>, i: int)
    requires
        0 <= i < words(s).len(),
    ensures
        words(s)[i].len() > 0,
    decreases s.len(),
{
    if s.len() > 0 {
        let init = s.drop_last();
        let before = words(init);
        if is_whitespace(s.last()) {
            lemma_words_not_empty(init, i);
        } else if init.len() > 0 && !is_whitespace(init.last()) {
            if i < before.len() - 1 {
                lemma_words_not_empty(init, i);
            }
        } else {
            if i < before.len() {
                lemma_words_not_empty(init, i);
            }
        }
    }
}

/// No word of a line holds whitespace.
pub proof fn lemma_words_hold_no_whitespace(s: Seq<char>, i: int, j: int)
    requires
        0 <= i < words(s).len(),
        0 <= j < words(s)[i].len(),
    ensures
        !is_whitespace(words(s)[i][j]),
    decreases s.len(),
{
    if s.len() > 0 {
        let init = s.drop_last();
        let before = words(init);
        if is_whitespace(s.last()) {
            lemma_words_hold_no_whitespace(init, i, j);
        } else if init.len() > 0 && !is_whitespace(init.last()) {
            if i < before.len() - 1 {
                lemma_words_hold_no_whitespace(init, i, j);
            } else if j < before.last().len() {
                lemma_words_hold_no_whitespace(init, i, j);
            }
        } else {
            if i < before.len() {
                lemma_words_hold_no_whitespace(init, i, j);
            }
        }
    }
}

/// A line has no word exactly when it is blank.
pub proof fn lemma_blank_has_no_words(s: Seq<char>)
    ensures
        is_blank(s) <==> words(s).len() == 0,
    decreases s.len(),
{
    if s.len() > 0 {
        let init = s.drop_last();
        lemma_blank_has_no_words(init);
        if is_blank(s) {
            assert(is_whitespace(s[s.len() - 1]));
            assert forall|i: int| 0 <= i < init.len() implies is_whitespace(
                #[trigger] init[i],
            ) by {
                assert(is_whitespace(s[i]));
            }
        }
        if words(s).len() == 0 {
            assert(is_whitespace(s.last()));
            assert forall|i: int| 0 <= i < s.len() implies is_whitespace(#[trigger] s[i]) by {
                if i < init.len() {
                    assert(is_whitespace(init[i]));
                }
            }
        }
    }
}

/// The last word of a line, or the empty word where the line has none.
pub open spec fn last_word(s: Seq<char>) -> Seq<char> {
    if words(s).len() == 0 {
        Seq::empty()
    } else {
        words(s).last()
    }
}

/// Splits a line into its words.
pub fn split_words(s: &str) -> (r: Vec<String>)
    ensures
        r.deep_view() == words(s@),
{
    let cs = chars_of(s);
    let mut out: Vec<String> = Vec::new();
    let mut start: usize = 0;
    let mut in_word = false;
    let mut i: usize = 0;
    assert(s@.take(0) =~= Seq::<char>::empty());
    while i < cs.len()
        invariant
            cs@ == s@,
            i <= cs.len(),
            in_word ==> start < i && !is_whitespace(s@[i - 1]) && words(s@.take(i as int))
                =~= out.deep_view().push(s@.subrange(start as int, i as int)),
            !in_word ==> (i == 0 || is_whitespace(s@[i - 1])) && words(s@.take(i as int))
                =~= out.deep_view(),
        decreases cs.len() - i,
    {
        let c = cs[i];
        let ghost done = out.deep_view();
        proof {
            let next = s@.take(i + 1);
            assert(next.drop_last() =~= s@.take(i as int));
            assert(next.last() == c);
            if i > 0 {
                assert(s@.take(i as int).last() == s@[i - 1]);
            }
        }
        if char_is_whitespace(c) {
            if in_word {
                let word = s.substring_char(start, i).to_owned();
                out.push(word);
                in_word = false;
                assert(out.deep_view() =~= done.push(s@.subrange(start as int, i as int)));
            }
        } else {
            if in_word {
                assert(s@.subrange(start as int, i as int).push(c) =~= s@.subrange(
                    start as int,
                    i + 1,
                ));
                assert(done.push(s@.subrange(start as int, i as int)).drop_last() =~= done);
            } else {
                start = i;
                in_word = true;
                assert(seq![c] =~= s@.subrange(i as int, i + 1));
            }
        }
        i += 1;
    }
    assert(s@.take(i as int) =~= s@);
    if in_word {
        let ghost done = out.deep_view();
        let word = s.substring_char(start, i).to_owned();
        out.push(word);
        assert(out.deep_view() =~= done.push(s@.subrange(start as int, i as int)));
    }
    out
}

/// The given words in a row, each one followed by a single space.
pub open spec fn spaced(ws: Seq<Seq<char>>) -> Seq<char>
    decreases ws.len(),
{
    if ws.len() == 0 {
        Seq::empty()
    } else {
        spaced(ws.drop_last()) + ws.last() + seq![' ']
    }
}

/// Writes the first `n` of the given words in a row, each one followed by a single space.
pub fn join_spaced(ws: &Vec<String>, n: usize) -> (r: String)
    requires
        n <= ws.len(),
    ensures
        r@ == spaced(ws.deep_view().take(n as int)),
{
    let mut line = String::new();
    let mut i: usize = 0;
    assert(ws.deep_view().take(0) =~= Seq::<Seq<char>>::empty());
    while i < n
        invariant
            i <= n <= ws.len(),
            line@ == spaced(ws.deep_view().take(i as int)),
        decreases n - i,
    {
        proof {
            reveal_strlit(" ");
            let next = ws.deep_view().take(i + 1);
            assert(next.drop_last() =~= ws.deep_view().take(i as int));
            assert(next.last() == ws@[i as int]@);
            assert(" "@ =~= seq![' ']);
        }
        line.append(ws[i].as_str());
        line.append(" ");
        i += 1;
    }
    line
}

/// A copy of a list of words.
pub fn copy_words(list: &Vec<String>) -> (r: Vec<String>)
    ensures
        r.deep_view() == list.deep_view(),
{
    let mut out: Vec<String> = Vec::new();
    let mut i: usize = 0;
    while i < list.len()
        invariant
            i <= list.len(),
            out.deep_view() =~= list.deep_view().take(i as int),
        decreases list.len() - i,
    {
        let ghost done = out.deep_view();
        out.push(list[i].clone());
        assert(out.deep_view() =~= done.push(list.deep_view()[i as int]));
        i += 1;
    }
    assert(list.deep_view().take(i as int) =~= list.deep_view());
    out
}

} // verus!
