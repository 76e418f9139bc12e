//! The history: the lines submitted so far, the most recent first, behind one slot for the
//! line that is being edited.

use crate::text::{is_blank, str_is_blank};
use std::collections::VecDeque;
use vstd::prelude::*;

verus! {

/// The history as a value: slot 0 is the live slot, the slots from 1 on hold the submitted
/// lines, the most recent first; `index` is the slot that navigation stands at, 0 while the
/// user is not navigating.
pub struct HistoryView {
    pub entries: Seq<Seq<char>>,
    pub index: int,
}

impl HistoryView {
    /// There is a live slot, and the index points at a slot.
    pub open spec fn wf(self) -> bool {
        0 <= self.index < self.entries.len()
    }

    /// The history after `line` was submitted under a limit of `max` past lines: the line
    /// stands at slot 1, the oldest line has left if there was one too many, and navigation
    /// is back at the live slot.
    pub open spec fn record(self, line: Seq<char>, max: int) -> HistoryView {
        let grown = self.entries.insert(1, line);
        HistoryView {
            entries: if grown.len() > max + 1 {
                grown.drop_last()
            } else {
                grown
            },
            index: 0,
        }
    }

    /// Whether there is an older line to go up to.
    pub open spec fn can_go_up(self) -> bool {
        self.entries.len() > 1 && self.index < self.entries.len() - 1
    }

    /// The history after a step up from `input`: an edit in progress that is not blank is
    /// saved to the live slot first.
    pub open spec fn up(self, input: Seq<char>) -> HistoryView {
        if !self.can_go_up() {
            self
        } else {
            HistoryView {
                entries: if self.index == 0 && !is_blank(input) {
                    self.entries.update(0, input)
                } else {
                    self.entries
                },
                index: self.index + 1,
            }
        }
    }

    /// Whether navigation stands at a submitted line, so that there is a way down.
    pub open spec fn can_go_down(self) -> bool {
        self.index > 0
    }

    /// The history after a step down.
    pub open spec fn down(self) -> HistoryView {
        if !self.can_go_down() {
            self
        } else {
            HistoryView { entries: self.entries, index: self.index - 1 }
        }
    }

    /// The line at the slot that navigation stands at.
    pub open spec fn current(self) -> Seq<char> {
        self.entries[self.index]
    }

    /// The history after the given lines were submitted one after the other.
    pub open spec fn record_all(self, lines: Seq<Seq<char>>, max: int) -> HistoryView
        decreases lines.len(),
    {
        if lines.len() == 0 {
            self
        } else {
            self.record_all(lines.drop_last(), max).record(lines.last(), max)
        }
    }
}

/// A submitted line is the most recent one of the history, unless the history keeps none.
pub proof fn lemma_record_most_recent(history: HistoryView, line: Seq<char>, max: int)
    requires
        history.wf(),
        max >= 1,
    ensures
        history.record(line, max).entries[0] == history.entries[0],
        history.record(line, max).entries[1] == line,
{
}

/// The history is bounded: where it holds at most `max` submitted lines, it does so after a
/// submission too, and it has grown by one slot unless it was full.
pub proof fn lemma_record_bound(history: HistoryView, line: Seq<char>, max: int)
    requires
        history.wf(),
        max >= 0,
        history.entries.len() <= max + 1,
    ensures
        history.record(line, max).wf(),
        history.record(line, max).entries.len() == if history.entries.len() == max + 1 {
            max + 1
        } else {
            history.entries.len() as int + 1
        },
{
}

/// After any number of submissions the history of a new console holds as many submitted
/// lines as there were, and `max` at most. So after `max` submissions or more, `max + 5` for
/// one, it has `max + 1` slots.
pub proof fn lemma_history_bound(lines: Seq<Seq<char>>, max: int)
    requires
        max >= 0,
    ensures
        ({
            let fresh = HistoryView { entries: seq![Seq::<char>::empty()], index: 0 };
            let after = fresh.record_all(lines, max);
            &&& after.wf()
            &&& after.entries.len() == if lines.len() <= max {
                lines.len() as int + 1
            } else {
                max + 1
            }
        }),
    decreases lines.len(),
{
    if lines.len() > 0 {
        let fresh = HistoryView { entries: seq![Seq::<char>::empty()], index: 0 };
        lemma_history_bound(lines.drop_last(), max);
        lemma_record_bound(fresh.record_all(lines.drop_last(), max), lines.last(), max);
    }
}

/// An edit that is not blank survives a look at the history: one step up from the live slot
/// and one step down again bring it back.
pub proof fn lemma_up_down_restores(history: HistoryView, input: Seq<char>)
    requires
        history.wf(),
        history.index == 0,
        history.can_go_up(),
        !is_blank(input),
    ensures
        history.up(input).down().index == 0,
        history.up(input).down().current() == input,
        history.up(input).down().entries == history.entries.update(0, input),
{
}

/// The history of a console.
pub struct HistoryBuffer {
    entries: VecDeque<String>,
    index: usize,
}

impl View for HistoryBuffer {
    type V = HistoryView;

    closed spec fn view(&self) -> HistoryView {
        HistoryView {
            entries: Seq::new(self.entries@.len(), |i: int| self.entries@[i]@),
            index: self.index as int,
        }
    }
}

impl HistoryBuffer {
    /// The history of a new console: the live slot alone, empty.
    pub fn new() -> (r: Self)
        ensures
            r@.wf(),
            r@.entries == seq![Seq::<char>::empty()],
            r@.index == 0,
    {
        let mut entries: VecDeque<String> = VecDeque::new();
        entries.push_back(String::new());
        let r = HistoryBuffer { entries, index: 0 };
        assert(r@.entries =~= seq![Seq::<char>::empty()]);
        r
    }

    /// The number of slots, the live one included.
    pub fn len(&self) -> (n: usize)
        ensures
            n == self@.entries.len(),
    {
        self.entries.len()
    }

    /// The slot that navigation stands at.
    pub fn index(&self) -> (i: usize)
        ensures
            i == self@.index,
    {
        self.index
    }

    /// The line at a slot.
    pub fn entry(&self, i: usize) -> (line: &String)
        requires
            i < self@.entries.len(),
        ensures
            line@ == self@.entries[i as int],
    {
        &self.entries[i]
    }

    /// Takes a submitted line in, under a limit of `max` past lines.
    pub fn record(&mut self, line: &str, max: usize)
        requires
            old(self)@.wf(),
        ensures
            final(self)@.wf(),
            final(self)@ == old(self)@.record(line@, max as int),
    {
        let ghost before = self@;
        self.entries.insert(1, line.to_owned());
        if self.entries.len() - 1 > max {
            self.entries.pop_back();
        }
        self.index = 0;
        assert(self@.entries =~= before.record(line@, max as int).entries);
    }

    /// Goes one line up, if there is one: saves an edit in progress that is not blank, and
    /// puts the older line into `input`. Says whether it moved.
    pub fn up(&mut self, input: &mut String) -> (moved: bool)
        requires
            old(self)@.wf(),
        ensures
            final(self)@.wf(),
            moved == old(self)@.can_go_up(),
            final(self)@ == old(self)@.up(old(input)@),
            final(input)@ == if moved {
                final(self)@.current()
            } else {
                old(input)@
            },
    {
        let ghost before = self@;
        if !(self.entries.len() > 1 && self.index < self.entries.len() - 1) {
            return false;
        }
        if self.index == 0 && !str_is_blank(input.as_str()) {
            self.entries.pop_front();
            self.entries.push_front(input.clone());
        }
        self.index += 1;
        assert(self@.entries =~= before.up(old(input)@).entries);
        *input = self.entries[self.index].clone();
        true
    }

    /// Goes one line down, if navigation stands at a submitted line, and puts the line it
    /// comes to into `input`: at slot 0 that is the edit saved on the way up. Says whether it
    /// moved.
    pub fn down(&mut self, input: &mut String) -> (moved: bool)
        requires
            old(self)@.wf(),
        ensures
            final(self)@.wf(),
            moved == old(self)@.can_go_down(),
            final(self)@ == old(self)@.down(),
            final(input)@ == if moved {
                final(self)@.current()
            } else {
                old(input)@
            },
    {
        if self.index == 0 {
            return false;
        }
        self.index -= 1;
        *input = self.entries[self.index].clone();
        true
    }
}

} // verus!
