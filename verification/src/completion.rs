//! Tab completion: a press of Tab goes on with the cycle of candidates that is under way, or
//! starts one from the arguments known for the command, or from the names of the commands.

use crate::names::{
    in_order, increasing, lemma_matching_increasing, lemma_name_lt_asymmetric, matching,
    name_lt, same_name,
};
use crate::prefix_index::PrefixIndex;
use crate::registry::Registry;
use crate::text::{
    copy_words, ends_with_space, join_spaced, last_word, lemma_words_not_empty, spaced,
    split_words, str_contains_space, str_ends_with_space, words,
};
use vstd::prelude::*;

verus! {

/// What a press of Tab came to.
#[derive(Clone, Copy, Debug, PartialEq, Eq, Structural)]
pub enum Completion {
    /// The last word was a candidate of the cycle under way, and the next candidate took
    /// its place.
    Cycled,
    /// A new list of candidates was found, and its first one was put into the line.
    Started,
    /// There was a place to look for candidates, and none of them fits.
    NoMatch,
    /// The line stands at an argument, and no candidates are known for its command.
    NoSource,
}

/// The line and the cycle after a press of Tab, and what the press came to.
pub struct TabResult {
    pub line: Seq<char>,
    pub cycle: Seq<Seq<char>>,
    pub outcome: Completion,
}

/// The position of the first occurrence of `word` in `list`, or the length of `list` where
/// it does not occur.
pub open spec fn first_index(list: Seq<Seq<char>>, word: Seq<char>) -> int
    decreases list.len(),
{
    if list.len() == 0 {
        0
    } else if list[0] == word {
        0
    } else {
        1 + first_index(list.drop_first(), word)
    }
}

/// The candidate that follows the first occurrence of `word` in the cycle; after the last
/// candidate comes the first one again.
pub open spec fn next_candidate(cycle: Seq<Seq<char>>, word: Seq<char>) -> Seq<char> {
    let at = first_index(cycle, word);
    if at + 1 < cycle.len() {
        cycle[at + 1]
    } else {
        cycle[0]
    }
}

/// The words of a line but the last, each followed by a space: what stays of the line when
/// its last word is replaced.
pub open spec fn lead(line: Seq<char>) -> Seq<char> {
    if words(line).len() == 0 {
        Seq::empty()
    } else {
        spaced(words(line).drop_last())
    }
}

/// A press of Tab as a function of the line, the cycle under way, the registered names in
/// their order, the names of the prefix index, and the table of argument candidates.
pub open spec fn tab(
    line: Seq<char>,
    cycle: Seq<Seq<char>>,
    names: Seq<Seq<char>>,
    indexed: Seq<Seq<char>>,
    args: Map<Seq<char>, Vec<String>>,
) -> TabResult {
    let target = last_word(line);
    let unchanged = |outcome: Completion| TabResult { line, cycle, outcome };
    if cycle.contains(target) {
        TabResult {
            line: lead(line) + next_candidate(cycle, target),
            cycle,
            outcome: Completion::Cycled,
        }
    } else if line.contains(' ') {
        if words(line).len() == 0 || !args.dom().contains(words(line)[0]) {
            unchanged(Completion::NoSource)
        } else {
            let candidates = args[words(line)[0]].deep_view();
            if ends_with_space(line) {
                if candidates.len() > 0 {
                    TabResult {
                        line: spaced(words(line)) + candidates[0],
                        cycle: candidates,
                        outcome: Completion::Started,
                    }
                } else {
                    unchanged(Completion::NoMatch)
                }
            } else {
                let found = matching(in_order(candidates), target);
                if found.len() > 0 {
                    TabResult {
                        line: lead(line) + found[0],
                        cycle: found,
                        outcome: Completion::Started,
                    }
                } else {
                    unchanged(Completion::NoMatch)
                }
            }
        }
    } else if words(line).len() == 0 {
        if names.len() > 0 {
            TabResult { line: names[0], cycle: names, outcome: Completion::Started }
        } else {
            TabResult { line, cycle: names, outcome: Completion::NoMatch }
        }
    } else {
        let found = matching(indexed, target);
        if found.len() > 0 {
            TabResult { line: found[0], cycle: found, outcome: Completion::Started }
        } else {
            unchanged(Completion::NoMatch)
        }
    }
}

/// Tab pressed again goes on with the candidates that the first press found and does not
/// look for them anew. Where a press at the name of the command has put the first of several
/// candidates into the line, and that candidate is one word, the next press puts the second
/// one there, which is another name, and leaves the cycle as it is.
pub proof fn lemma_second_tab_cycles(
    line: Seq<char>,
    cycle: Seq<Seq<char>>,
    names: Seq<Seq<char>>,
    indexed: Seq<Seq<char>>,
    args: Map<Seq<char>, Vec<String>>,
)
    requires
        increasing(names),
        increasing(indexed),
        !line.contains(' '),
        tab(line, cycle, names, indexed, args).outcome == Completion::Started,
        tab(line, cycle, names, indexed, args).cycle.len() >= 2,
        words(tab(line, cycle, names, indexed, args).cycle[0]) == seq![
            tab(line, cycle, names, indexed, args).cycle[0],
        ],
    ensures
        ({
            let first = tab(line, cycle, names, indexed, args);
            let second = tab(first.line, first.cycle, names, indexed, args);
            &&& first.line == first.cycle[0]
            &&& second.outcome == Completion::Cycled
            &&& second.cycle == first.cycle
            &&& second.line == first.cycle[1]
            &&& second.line != first.line
        }),
{
    let first = tab(line, cycle, names, indexed, args);
    let found = first.cycle;
    if words(line).len() > 0 {
        lemma_matching_increasing(indexed, last_word(line));
    }
    assert(increasing(found));
    assert(first.line == found[0]);
    assert(last_word(found[0]) == found[0]);
    assert(found.contains(found[0]));
    assert(first_index(found, found[0]) == 0);
    assert(words(found[0]).drop_last() =~= Seq::<Seq<char>>::empty());
    assert(lead(found[0]) + found[1] =~= found[1]);
    assert(name_lt(found[0], found[1]));
    lemma_name_lt_asymmetric(found[0], found[1]);
}

/// Once the cycle has ended, a press of Tab searches anew: it does not go on with candidates
/// that are no longer there.
pub proof fn lemma_tab_after_reset_searches(
    line: Seq<char>,
    names: Seq<Seq<char>>,
    indexed: Seq<Seq<char>>,
    args: Map<Seq<char>, Vec<String>>,
)
    ensures
        tab(line, Seq::empty(), names, indexed, args).outcome != Completion::Cycled,
{
}

/// The position of the first occurrence of `word` in `list`, or the length of `list`.
pub fn position(list: &Vec<String>, word: &str) -> (at: usize)
    ensures
        at == first_index(list.deep_view(), word@),
        at <= list.len(),
        at < list.len() <==> list.deep_view().contains(word@),
        at < list.len() ==> list.deep_view()[at as int] == word@,
{
    let ghost all = list.deep_view();
    let mut i: usize = 0;
    assert(all.skip(0) =~= all);
    while i < list.len()
        invariant
            i <= list.len(),
            all == list.deep_view(),
            first_index(all, word@) == i + first_index(all.skip(i as int), word@),
            forall|j: int| 0 <= j < i ==> all[j] != word@,
        decreases list.len() - i,
    {
        proof {
            assert(all.skip(i as int)[0] == all[i as int]);
            assert(all.skip(i as int).drop_first() =~= all.skip(i + 1));
        }
        if same_name(list[i].as_str(), word) {
            assert(all[i as int] == word@);
            return i;
        }
        i += 1;
    }
    assert(all.skip(i as int).len() == 0);
    i
}

/// Handles a press of Tab on `line`, with `cycle` the candidates of the cycle under way.
pub fn complete<S>(
    line: &mut String,
    cycle: &mut Vec<String>,
    commands: &Registry<S>,
    index: &PrefixIndex,
    args: &Registry<Vec<String>>,
) -> (outcome: Completion)
    requires
        commands.wf(),
        index.wf(),
        args.wf(),
    ensures
        outcome == tab(
            old(line)@,
            old(cycle).deep_view(),
            commands.names(),
            index@,
            args@,
        ).outcome,
        final(line)@ == tab(
            old(line)@,
            old(cycle).deep_view(),
            commands.names(),
            index@,
            args@,
        ).line,
        final(cycle).deep_view() == tab(
            old(line)@,
            old(cycle).deep_view(),
            commands.names(),
            index@,
            args@,
        ).cycle,
{
    let ws = split_words(line.as_str());
    let n = ws.len();
    let target = if n == 0 {
        String::new()
    } else {
        ws[n - 1].clone()
    };
    assert(target@ == last_word(line@));
    let keep = if n == 0 {
        0
    } else {
        n - 1
    };
    proof {
        if n > 0 {
            assert(ws.deep_view().take(keep as int) =~= words(line@).drop_last());
        } else {
            assert(ws.deep_view().take(0) =~= Seq::<Seq<char>>::empty());
        }
        assert(ws.deep_view().take(n as int) =~= words(line@));
    }
    let at = position(cycle, target.as_str());
    if at < cycle.len() {
        let next = if at + 1 < cycle.len() {
            &cycle[at + 1]
        } else {
            &cycle[0]
        };
        let mut full = join_spaced(&ws, keep);
        full.append(next.as_str());
        *line = full;
        Completion::Cycled
    } else if str_contains_space(line.as_str()) {
        if n == 0 {
            return Completion::NoSource;
        }
        match args.lookup(ws[0].as_str()) {
            None => Completion::NoSource,
            Some(candidates) => {
                if str_ends_with_space(line.as_str()) {
                    if candidates.len() > 0 {
                        let mut full = join_spaced(&ws, n);
                        full.append(candidates[0].as_str());
                        *cycle = copy_words(candidates);
                        *line = full;
                        Completion::Started
                    } else {
                        Completion::NoMatch
                    }
                } else {
                    let among = PrefixIndex::of(candidates);
                    proof {
                        lemma_words_not_empty(line@, n - 1);
                    }
                    let found = among.search(target.as_str());
                    if found.len() > 0 {
                        let mut full = join_spaced(&ws, keep);
                        full.append(found[0].as_str());
                        *cycle = found;
                        *line = full;
                        Completion::Started
                    } else {
                        Completion::NoMatch
                    }
                }
            },
        }
    } else if n == 0 {
        let names = commands.name_list();
        let outcome = if names.len() > 0 {
            *line = names[0].clone();
            Completion::Started
        } else {
            Completion::NoMatch
        };
        *cycle = names;
        outcome
    } else {
        proof {
            lemma_words_not_empty(line@, n - 1);
        }
        let found = index.search(target.as_str());
        if found.len() > 0 {
            *line = found[0].clone();
            *cycle = found;
            Completion::Started
        } else {
            Completion::NoMatch
        }
    }
}

} // verus!
