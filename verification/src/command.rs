//! The handle through which the handler of a command takes its parsed arguments and answers
//! on the console.

use crate::console::{ConsoleCommandEntered, PrintConsoleLine};
use crate::names::same_name;
use vstd::prelude::*;

verus! {

/// A command that is known by a name: the first word of the lines that enter it.
pub trait NamedCommand {
    /// The name of the command.
    fn name() -> &'static str;
}

/// The position of the first of the entered commands that bears `name`.
pub open spec fn first_entered(events: Seq<ConsoleCommandEntered>, name: Seq<char>) -> Option<int>
    decreases events.len(),
{
    if events.len() == 0 {
        None
    } else if events[0].command_name@ == name {
        Some(0)
    } else {
        match first_entered(events.drop_first(), name) {
            Some(at) => Some(at + 1),
            None => None,
        }
    }
}

/// Finds, among the commands entered in a tick, the first one for the command `name`: the
/// one whose arguments its handler gets to see.
pub fn find_entered(events: &Vec<ConsoleCommandEntered>, name: &str) -> (found: Option<usize>)
    ensures
        match found {
            Some(at) => first_entered(events@, name@) == Some(at as int) && at < events@.len(),
            None => first_entered(events@, name@) is None,
        },
{
    let mut i: usize = 0;
    assert(events@.skip(0) =~= events@);
    while i < events.len()
        invariant
            i <= events.len(),
            first_entered(events@, name@) == match first_entered(events@.skip(i as int), name@) {
                Some(at) => Some(at + i),
                None => None,
            },
        decreases events.len() - i,
    {
        proof {
            assert(events@.skip(i as int)[0] == events@[i as int]);
            assert(events@.skip(i as int).drop_first() =~= events@.skip(i + 1));
        }
        if same_name(events[i].command_name.as_str(), name) {
            return Some(i);
        }
        i += 1;
    }
    assert(events@.skip(i as int).len() == 0);
    None
}

/// What the handler of a command holds in a tick: the arguments of the command if it was
/// entered, parsed into a `T` or refused with an `E`, and the lines that the handler answers
/// with.
pub struct ConsoleCommand<T, E> {
    command: Option<Result<T, E>>,
    lines: Vec<PrintConsoleLine>,
}

impl<T, E> ConsoleCommand<T, E> {
    /// The parsed command, until it is taken.
    pub closed spec fn command(&self) -> Option<Result<T, E>> {
        self.command
    }

    /// The lines to print, in the order in which they were written.
    pub closed spec fn lines(&self) -> Seq<Seq<char>> {
        Seq::new(self.lines@.len(), |i: int| self.lines@[i].line@)
    }

    /// The handle for a tick: `command` is `None` if the command was not entered, else what
    /// its arguments were made into. Nothing is printed yet.
    pub fn new(command: Option<Result<T, E>>) -> (r: Self)
        ensures
            r.command() == command,
            r.lines() == Seq::<Seq<char>>::empty(),
    {
        let r = ConsoleCommand { command, lines: Vec::new() };
        assert(r.lines() =~= Seq::<Seq<char>>::empty());
        r
    }

    /// The handle for a tick in which the command was entered with arguments that its
    /// signature refuses: the handler gets the error, and the console its message.
    pub fn refused(error: E, message: &str) -> (r: Self)
        ensures
            r.command() == Some(Err::<T, E>(error)),
            r.lines() == seq![message@],
    {
        let mut r = ConsoleCommand { command: Some(Err(error)), lines: Vec::new() };
        assert(r.lines() =~= Seq::<Seq<char>>::empty());
        r.write(message);
        assert(r.lines() =~= seq![message@]);
        r
    }

    /// Hands out the parsed command. It is there once: after this call, and where the command
    /// was not entered, the result is `None`.
    pub fn take(&mut self) -> (command: Option<Result<T, E>>)
        ensures
            command == old(self).command(),
            final(self).command() is None,
            final(self).lines() == old(self).lines(),
    {
        self.command.take()
    }

    /// Prints `[ok]` in the console.
    pub fn ok(&mut self)
        ensures
            final(self).command() == old(self).command(),
            final(self).lines() == old(self).lines().push("[ok]"@),
    {
        self.write("[ok]");
    }

    /// Prints `[failed]` in the console.
    pub fn failed(&mut self)
        ensures
            final(self).command() == old(self).command(),
            final(self).lines() == old(self).lines().push("[failed]"@),
    {
        self.write("[failed]");
    }

    /// Prints a reply in the console.
    pub fn reply(&mut self, msg: &str)
        ensures
            final(self).command() == old(self).command(),
            final(self).lines() == old(self).lines().push(msg@),
    {
        self.write(msg);
    }

    /// Prints a reply in the console, followed by `[ok]`.
    pub fn reply_ok(&mut self, msg: &str)
        ensures
            final(self).command() == old(self).command(),
            final(self).lines() == old(self).lines().push(msg@).push("[ok]"@),
    {
        self.write(msg);
        self.ok();
    }

    /// Prints a reply in the console, followed by `[failed]`.
    pub fn reply_failed(&mut self, msg: &str)
        ensures
            final(self).command() == old(self).command(),
            final(self).lines() == old(self).lines().push(msg@).push("[failed]"@),
    {
        self.write(msg);
        self.failed();
    }

    /// Hands out the lines written so far, for the host to print, and starts afresh.
    pub fn drain(&mut self) -> (lines: Vec<PrintConsoleLine>)
        ensures
            final(self).command() == old(self).command(),
            final(self).lines() == Seq::<Seq<char>>::empty(),
            Seq::new(lines@.len(), |i: int| lines@[i].line@) == old(self).lines(),
    {
        let mut lines: Vec<PrintConsoleLine> = Vec::new();
        std::mem::swap(&mut lines, &mut self.lines);
        assert(self.lines() =~= Seq::<Seq<char>>::empty());
        lines
    }

    fn write(&mut self, msg: &str)
        ensures
            final(self).command() == old(self).command(),
            final(self).lines() == old(self).lines().push(msg@),
    {
        let ghost before = self.lines();
        self.lines.push(PrintConsoleLine::new(msg.to_owned()));
        assert(self.lines() =~= before.push(msg@));
    }
}

} // verus!
