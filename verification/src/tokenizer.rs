//! The tokenizer: a line is split into words by the rules of the POSIX shell, as `shlex` has
//! them.

use vstd::prelude::*;

verus! {

/// The words into which `shlex::split` divides a line, or `None` where the line ends inside
/// a quotation or right after a backslash. Whitespace outside quotes separates words, single
/// and double quotes group text into one word, and a backslash takes the next character as
/// it stands.
pub uninterp spec fn shlex_split(line: Seq<char>) -> Option<Seq<Seq<char>>>;

/// `shlex::split`: the result is that of the line alone.
#[verifier::external_body]
pub(crate) fn split_line(line: &str) -> (r: Option<Vec<String>>)
    ensures
        r.deep_view() == shlex_split(line@),
{
    shlex::split(line)
}

/// A line that cannot be split: a quotation is left open, or the line ends with a backslash
/// that escapes nothing.
#[derive(Clone, Copy, Debug, PartialEq, Eq, Structural)]
pub struct TokenizeError;

/// What a tokenizer run amounts to: the words, or nothing where the line was malformed.
pub open spec fn tokens_of(r: Result<Vec<String>, TokenizeError>) -> Option<Seq<Seq<char>>> {
    match r {
        Ok(words) => Some(words.deep_view()),
        Err(_) => None,
    }
}

/// Splits a line into its words: the first is the command's name, the others are its
/// arguments. A malformed line gives an error and no word at all.
pub fn tokenize(line: &str) -> (r: Result<Vec<String>, TokenizeError>)
    ensures
        tokens_of(r) == shlex_split(line@),
{
    match split_line(line) {
        Some(words) => Ok(words),
        None => Err(TokenizeError),
    }
}

} // verus!
