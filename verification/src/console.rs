//! The state of a console and what the keys do to it: Enter submits the line, Tab completes
//! it, the arrows walk the history.

use crate::completion::{complete, tab, Completion};
use crate::configuration::ConsoleConfiguration;
use crate::history::{HistoryBuffer, HistoryView};
use crate::text::{copy_words, is_blank, str_is_blank};
use crate::tokenizer::{shlex_split, tokenize, tokens_of, TokenizeError};
use vstd::prelude::*;

verus! {

/// A command that was entered: the name of a registered command, and the arguments as the
/// line gave them, not yet parsed.
#[derive(Debug, PartialEq, Eq)]
pub struct ConsoleCommandEntered {
    /// The name of the command.
    pub command_name: String,
    /// The arguments, in the order of the line.
    pub args: Vec<String>,
}

impl Clone for ConsoleCommandEntered {
    fn clone(&self) -> (r: Self)
        ensures
            r.texts() == self.texts(),
    {
        ConsoleCommandEntered {
            command_name: self.command_name.clone(),
            args: copy_words(&self.args),
        }
    }
}

impl ConsoleCommandEntered {
    /// The name and the arguments as texts.
    pub open spec fn texts(&self) -> (Seq<char>, Seq<Seq<char>>) {
        (self.command_name@, self.args.deep_view())
    }
}

/// The name and the arguments of the command that was entered, if one was.
pub open spec fn event_of(entered: Option<ConsoleCommandEntered>) -> Option<
    (Seq<char>, Seq<Seq<char>>),
> {
    match entered {
        Some(event) => Some(event.texts()),
        None => None,
    }
}

/// A line to print to the console.
#[derive(Debug, PartialEq, Eq)]
pub struct PrintConsoleLine {
    /// The line.
    pub line: String,
}

impl Clone for PrintConsoleLine {
    fn clone(&self) -> (r: Self)
        ensures
            r.line@ == self.line@,
    {
        PrintConsoleLine { line: self.line.clone() }
    }
}

impl PrintConsoleLine {
    /// A line to print.
    pub fn new(line: String) -> (r: Self)
        ensures
            r.line == line,
    {
        PrintConsoleLine { line }
    }
}

/// The line that the scrollback takes when the first word of a submitted line is no
/// registered command.
pub open spec fn invalid_command_line() -> Seq<char> {
    "error: Invalid command"@
}

/// The line that the scrollback takes when a submitted line cannot be split into words.
pub open spec fn malformed_input_line() -> Seq<char> {
    "error: Malformed input"@
}

/// The keys of a tick that the console reacts to, once the input line has taken the text
/// that was typed.
#[derive(Clone, Copy, Debug, PartialEq, Eq, Structural)]
pub struct KeyFrame {
    /// Enter was pressed and the input line gave up the focus.
    pub enter: bool,
    /// Tab was pressed.
    pub tab: bool,
    /// Some key is held down and Tab is not.
    pub other_key: bool,
    /// The input line has the focus.
    pub focused: bool,
    /// The up arrow was pressed.
    pub arrow_up: bool,
    /// The down arrow was pressed.
    pub arrow_down: bool,
}

/// What the host has to do after the keys of a tick were handled.
#[derive(Debug, PartialEq, Eq)]
pub struct Reaction {
    /// The command to hand to its handler, if one was entered.
    pub entered: Option<ConsoleCommandEntered>,
    /// The history put another line into the input; the cursor goes to its end.
    pub cursor_to_end: bool,
    /// The input line takes the focus again.
    pub refocus: bool,
}

/// The state of a console as a value.
pub struct ConsoleView {
    pub buf: Seq<char>,
    pub scrollback: Seq<Seq<char>>,
    pub history: HistoryView,
    pub completions: Seq<Seq<char>>,
}

impl ConsoleView {
    /// The state after a line that is not blank was submitted and split into `tokens`
    /// (`None` for a malformed line), with `known` the names of the registered commands.
    /// First the line is echoed behind the prompt, then the history takes it, then the
    /// scrollback takes an error line if the line is malformed or its first word unknown;
    /// and the input is cleared.
    pub open spec fn dispatched(
        self,
        symbol: Seq<char>,
        max: int,
        known: Set<Seq<char>>,
        tokens: Option<Seq<Seq<char>>>,
    ) -> ConsoleView {
        let echoed = self.scrollback.push(symbol + self.buf);
        ConsoleView {
            buf: Seq::empty(),
            scrollback: match tokens {
                None => echoed.push(malformed_input_line()),
                Some(words) => if words.len() > 0 && !known.contains(words[0]) {
                    echoed.push(invalid_command_line())
                } else {
                    echoed
                },
            },
            history: self.history.record(self.buf, max),
            completions: self.completions,
        }
    }

    /// The state after Enter. A blank line leaves a blank line in the scrollback and nothing
    /// else; any other line is dispatched.
    pub open spec fn submitted(
        self,
        symbol: Seq<char>,
        max: int,
        known: Set<Seq<char>>,
        tokens: Option<Seq<Seq<char>>>,
    ) -> ConsoleView {
        if is_blank(self.buf) {
            ConsoleView { scrollback: self.scrollback.push(Seq::empty()), ..self }
        } else {
            self.dispatched(symbol, max, known, tokens)
        }
    }

    /// The state after the text of the input line was changed by any key but Tab: the cycle
    /// of candidates is over.
    pub open spec fn without_cycle(self) -> ConsoleView {
        ConsoleView { completions: Seq::empty(), ..self }
    }

    /// The state after an arrow key, where the input line has the focus: up where there is
    /// an older line, else down where navigation stands at a submitted line.
    pub open spec fn navigated(self, keys: KeyFrame) -> ConsoleView {
        if keys.focused && keys.arrow_up && self.history.can_go_up() {
            let history = self.history.up(self.buf);
            ConsoleView { buf: history.current(), history, ..self }
        } else if keys.focused && keys.arrow_down && self.history.can_go_down() {
            let history = self.history.down();
            ConsoleView { buf: history.current(), history, ..self }
        } else {
            self
        }
    }

    /// Whether an arrow key moves through the history.
    pub open spec fn navigates(self, keys: KeyFrame) -> bool {
        keys.focused && ((keys.arrow_up && self.history.can_go_up()) || (keys.arrow_down
            && self.history.can_go_down()))
    }
}

/// The command that a line split into `tokens` enters, if any: its first word, where that is
/// the name of a registered command, and the other words.
pub open spec fn entered_by(known: Set<Seq<char>>, tokens: Option<Seq<Seq<char>>>) -> Option<
    (Seq<char>, Seq<Seq<char>>),
> {
    match tokens {
        Some(words) => if words.len() > 0 && known.contains(words[0]) {
            Some((words[0], words.skip(1)))
        } else {
            None
        },
        None => None,
    }
}

/// Enter on a blank line leaves a blank line in the scrollback and does nothing else: the
/// input, the history and the cycle stay, and no command is entered.
pub proof fn lemma_blank_submission(
    state: ConsoleView,
    symbol: Seq<char>,
    max: int,
    known: Set<Seq<char>>,
    tokens: Option<Seq<Seq<char>>>,
)
    requires
        is_blank(state.buf),
    ensures
        state.submitted(symbol, max, known, tokens).scrollback == state.scrollback.push(
            Seq::empty(),
        ),
        state.submitted(symbol, max, known, tokens).buf == state.buf,
        state.submitted(symbol, max, known, tokens).history == state.history,
        state.submitted(symbol, max, known, tokens).completions == state.completions,
{
}

/// A line whose first word is a registered command enters that command with the other words
/// as its arguments, and the scrollback takes the echo of the line and no error.
pub proof fn lemma_known_command(
    state: ConsoleView,
    symbol: Seq<char>,
    max: int,
    known: Set<Seq<char>>,
    words: Seq<Seq<char>>,
)
    requires
        !is_blank(state.buf),
        words.len() > 0,
        known.contains(words[0]),
    ensures
        entered_by(known, Some(words)) == Some((words[0], words.skip(1))),
        state.submitted(symbol, max, known, Some(words)).scrollback == state.scrollback.push(
            symbol + state.buf,
        ),
        state.submitted(symbol, max, known, Some(words)).buf == Seq::<char>::empty(),
        state.submitted(symbol, max, known, Some(words)).history == state.history.record(
            state.buf,
            max,
        ),
{
}

/// A line whose first word is no registered command enters nothing, and the scrollback takes
/// the echo of the line and then one line that says so.
pub proof fn lemma_unknown_command(
    state: ConsoleView,
    symbol: Seq<char>,
    max: int,
    known: Set<Seq<char>>,
    words: Seq<Seq<char>>,
)
    requires
        !is_blank(state.buf),
        words.len() > 0,
        !known.contains(words[0]),
    ensures
        entered_by(known, Some(words)) is None,
        state.submitted(symbol, max, known, Some(words)).scrollback == state.scrollback.push(
            symbol + state.buf,
        ).push(invalid_command_line()),
        state.submitted(symbol, max, known, Some(words)).buf == Seq::<char>::empty(),
        state.submitted(symbol, max, known, Some(words)).history == state.history.record(
            state.buf,
            max,
        ),
{
}

/// A malformed line enters nothing, whatever words it begins with: the scrollback takes the
/// echo of the line and then one line that says so.
pub proof fn lemma_malformed_line(
    state: ConsoleView,
    symbol: Seq<char>,
    max: int,
    known: Set<Seq<char>>,
)
    requires
        !is_blank(state.buf),
    ensures
        entered_by(known, None) is None,
        state.submitted(symbol, max, known, None).scrollback == state.scrollback.push(
            symbol + state.buf,
        ).push(malformed_input_line()),
{
}

/// The arrows neither show anything nor end the cycle: navigation leaves the scrollback and
/// the candidates as they are.
pub proof fn lemma_navigation_is_silent(state: ConsoleView, keys: KeyFrame)
    ensures
        state.navigated(keys).scrollback == state.scrollback,
        state.navigated(keys).completions == state.completions,
{
}

/// An edit that is not blank survives a look at the history: the up arrow and then the down
/// arrow bring it back into the input line.
pub proof fn lemma_edit_survives_navigation(state: ConsoleView, up: KeyFrame, down: KeyFrame)
    requires
        state.history.wf(),
        state.history.index == 0,
        state.history.can_go_up(),
        !is_blank(state.buf),
        up.focused && up.arrow_up,
        down.focused && down.arrow_down && !down.arrow_up,
    ensures
        state.navigated(up).navigated(down).buf == state.buf,
        state.navigated(up).navigated(down).history.index == 0,
{
}

/// The state of a console.
pub struct ConsoleState {
    /// The input line.
    pub buf: String,
    /// The lines that the console shows, oldest first.
    pub scrollback: Vec<String>,
    /// The lines submitted so far.
    pub history: HistoryBuffer,
    /// The candidates of the completion cycle under way; empty when none is.
    pub completions: Vec<String>,
}

impl View for ConsoleState {
    type V = ConsoleView;

    open spec fn view(&self) -> ConsoleView {
        ConsoleView {
            buf: self.buf@,
            scrollback: self.scrollback.deep_view(),
            history: self.history@,
            completions: self.completions.deep_view(),
        }
    }
}

impl Default for ConsoleState {
    /// A console with nothing typed, nothing shown, nothing submitted.
    fn default() -> (r: Self)
        ensures
            r.wf(),
            r@.buf == Seq::<char>::empty(),
            r@.scrollback == Seq::<Seq<char>>::empty(),
            r@.history.entries == seq![Seq::<char>::empty()],
            r@.history.index == 0,
            r@.completions == Seq::<Seq<char>>::empty(),
    {
        let r = ConsoleState {
            buf: String::new(),
            scrollback: Vec::new(),
            history: HistoryBuffer::new(),
            completions: Vec::new(),
        };
        assert(r@.scrollback =~= Seq::<Seq<char>>::empty());
        assert(r@.completions =~= Seq::<Seq<char>>::empty());
        r
    }
}

impl ConsoleState {
    /// The history is sound.
    pub open spec fn wf(&self) -> bool {
        self.history@.wf()
    }

    /// Appends a line to the scrollback as it is.
    pub fn append(&mut self, line: String)
        ensures
            final(self)@ == (ConsoleView {
                scrollback: old(self)@.scrollback.push(line@),
                ..old(self)@
            }),
    {
        let ghost before = self.scrollback.deep_view();
        self.scrollback.push(line);
        assert(self.scrollback.deep_view() =~= before.push(line@));
    }

    /// Takes the lines that were printed to the console into the scrollback, in the order in
    /// which they came.
    pub fn receive_console_line(&mut self, events: &Vec<PrintConsoleLine>)
        ensures
            final(self)@ == (ConsoleView {
                scrollback: old(self)@.scrollback + Seq::new(
                    events@.len(),
                    |i: int| events@[i].line@,
                ),
                ..old(self)@
            }),
    {
        let ghost before = self@;
        let ghost lines = Seq::new(events@.len(), |i: int| events@[i].line@);
        let mut i: usize = 0;
        assert(before.scrollback + lines.take(0) =~= before.scrollback);
        while i < events.len()
            invariant
                i <= events.len(),
                lines == Seq::new(events@.len(), |i: int| events@[i].line@),
                self@ == (ConsoleView {
                    scrollback: before.scrollback + lines.take(i as int),
                    ..before
                }),
            decreases events.len() - i,
        {
            self.append(events[i].line.clone());
            assert(before.scrollback + lines.take(i + 1) =~= (before.scrollback + lines.take(
                i as int,
            )).push(events@[i as int].line@));
            i += 1;
        }
        assert(lines.take(i as int) =~= lines);
    }

    /// Clears the input line.
    pub fn clear_input(&mut self)
        ensures
            final(self)@ == (ConsoleView { buf: Seq::empty(), ..old(self)@ }),
    {
        self.buf = String::new();
    }

    /// Clears the scrollback.
    pub fn clear_scrollback(&mut self)
        ensures
            final(self)@ == (ConsoleView { scrollback: Seq::empty(), ..old(self)@ }),
    {
        self.scrollback = Vec::new();
        assert(self.scrollback.deep_view() =~= Seq::<Seq<char>>::empty());
    }

    /// Ends the completion cycle: the next press of Tab searches anew.
    pub fn reset_completions(&mut self)
        ensures
            final(self)@ == old(self)@.without_cycle(),
    {
        self.completions = Vec::new();
        assert(self.completions.deep_view() =~= Seq::<Seq<char>>::empty());
    }

    /// Dispatches the input line, which `tokens` is the split of: echoes it, records it,
    /// and hands back the command it enters, if its first word is a registered one.
    pub fn dispatch(
        &mut self,
        config: &ConsoleConfiguration,
        tokens: Result<Vec<String>, TokenizeError>,
    ) -> (entered: Option<ConsoleCommandEntered>)
        requires
            old(self).wf(),
            config.commands.wf(),
        ensures
            final(self).wf(),
            final(self)@ == old(self)@.dispatched(
                config.symbol@,
                config.history_size as int,
                config.commands@.dom(),
                tokens_of(tokens),
            ),
            event_of(entered) == entered_by(config.commands@.dom(), tokens_of(tokens)),
    {
        let ghost before = self@;
        let ghost wanted = before.dispatched(
            config.symbol@,
            config.history_size as int,
            config.commands@.dom(),
            tokens_of(tokens),
        );
        let mut echo = config.symbol.clone();
        echo.append(self.buf.as_str());
        self.append(echo);
        self.history.record(self.buf.as_str(), config.history_size);
        let mut entered: Option<ConsoleCommandEntered> = None;
        match tokens {
            Err(_) => {
                self.append("error: Malformed input".to_owned());
            },
            Ok(mut args) => {
                if args.len() > 0 {
                    let ghost all = args.deep_view();
                    let command_name = args.remove(0);
                    assert(args.deep_view() =~= all.skip(1));
                    assert(command_name@ == all[0]);
                    if config.commands.contains(command_name.as_str()) {
                        entered = Some(ConsoleCommandEntered { command_name, args });
                    } else {
                        self.append("error: Invalid command".to_owned());
                    }
                }
            },
        }
        self.buf = String::new();
        assert(self@.scrollback =~= wanted.scrollback);
        entered
    }

    /// Handles Enter: a blank line leaves a blank line in the scrollback; any other line is
    /// split into words and dispatched.
    pub fn submit(&mut self, config: &ConsoleConfiguration) -> (entered: Option<
        ConsoleCommandEntered,
    >)
        requires
            old(self).wf(),
            config.commands.wf(),
        ensures
            final(self).wf(),
            final(self)@ == old(self)@.submitted(
                config.symbol@,
                config.history_size as int,
                config.commands@.dom(),
                shlex_split(old(self)@.buf),
            ),
            event_of(entered) == if is_blank(old(self)@.buf) {
                None
            } else {
                entered_by(config.commands@.dom(), shlex_split(old(self)@.buf))
            },
    {
        if str_is_blank(self.buf.as_str()) {
            self.append(String::new());
            None
        } else {
            let tokens = tokenize(self.buf.as_str());
            self.dispatch(config, tokens)
        }
    }

    /// Handles Tab.
    pub fn complete(&mut self, config: &ConsoleConfiguration) -> (outcome: Completion)
        requires
            config.wf(),
        ensures
            outcome == old(self)@.tabbed(config).outcome,
            final(self)@ == old(self)@.after_tab(config),
    {
        complete(
            &mut self.buf,
            &mut self.completions,
            &config.commands,
            &config.commands_trie,
            &config.arg_completions,
        )
    }

    /// Handles the up arrow while the input line has the focus. Says whether the input line
    /// took another text.
    pub fn history_up(&mut self) -> (moved: bool)
        requires
            old(self).wf(),
        ensures
            final(self).wf(),
            moved == old(self)@.history.can_go_up(),
            final(self)@ == (ConsoleView {
                buf: if moved {
                    old(self)@.history.up(old(self)@.buf).current()
                } else {
                    old(self)@.buf
                },
                history: old(self)@.history.up(old(self)@.buf),
                ..old(self)@
            }),
    {
        self.history.up(&mut self.buf)
    }

    /// Handles the down arrow while the input line has the focus. Says whether the input line
    /// took another text.
    pub fn history_down(&mut self) -> (moved: bool)
        requires
            old(self).wf(),
        ensures
            final(self).wf(),
            moved == old(self)@.history.can_go_down(),
            final(self)@ == (ConsoleView {
                buf: if moved {
                    old(self)@.history.down().current()
                } else {
                    old(self)@.buf
                },
                history: old(self)@.history.down(),
                ..old(self)@
            }),
    {
        self.history.down(&mut self.buf)
    }
}

impl ConsoleState {
    /// Handles the keys of a tick in their order: Enter, then Tab or the end of the cycle,
    /// then the arrows. A press of Tab that finds no candidates for the command of the line
    /// ends the tick there: the arrows are not looked at, and the focus is not asked for.
    pub fn handle_keys(&mut self, config: &ConsoleConfiguration, keys: KeyFrame) -> (reaction:
        Reaction)
        requires
            old(self).wf(),
            config.wf(),
        ensures
            final(self).wf(),
            final(self)@ == old(self)@.after_keys(config, keys, shlex_split(old(self)@.buf)),
            event_of(reaction.entered) == if keys.enter && !is_blank(old(self)@.buf) {
                entered_by(config.commands@.dom(), shlex_split(old(self)@.buf))
            } else {
                None
            },
            reaction.refocus == !old(self)@.tab_ends_tick(
                config,
                keys,
                shlex_split(old(self)@.buf),
            ),
            reaction.cursor_to_end == (reaction.refocus && old(self)@.after_typing(
                config,
                keys,
                shlex_split(old(self)@.buf),
            ).navigates(keys)),
    {
        let entered = if keys.enter {
            self.submit(config)
        } else {
            None
        };
        if keys.tab {
            let outcome = self.complete(config);
            if outcome == Completion::NoSource {
                return Reaction { entered, cursor_to_end: false, refocus: false };
            }
        } else if keys.other_key {
            self.reset_completions();
        }
        let mut moved = false;
        if keys.focused && keys.arrow_up && self.history.len() > 1 && self.history.index()
            < self.history.len() - 1 {
            moved = self.history_up();
        } else if keys.focused && keys.arrow_down && self.history.index() > 0 {
            moved = self.history_down();
        }
        Reaction { entered, cursor_to_end: moved, refocus: true }
    }
}

impl ConsoleView {
    /// The state after Enter, if it was pressed.
    pub open spec fn after_enter(
        self,
        config: &ConsoleConfiguration,
        keys: KeyFrame,
        tokens: Option<Seq<Seq<char>>>,
    ) -> ConsoleView {
        if keys.enter {
            self.submitted(
                config.symbol@,
                config.history_size as int,
                config.commands@.dom(),
                tokens,
            )
        } else {
            self
        }
    }

    /// The state after Enter and then Tab, or the end of the cycle where another key is
    /// held.
    pub open spec fn after_typing(
        self,
        config: &ConsoleConfiguration,
        keys: KeyFrame,
        tokens: Option<Seq<Seq<char>>>,
    ) -> ConsoleView {
        let entered = self.after_enter(config, keys, tokens);
        if keys.tab {
            entered.after_tab(config)
        } else if keys.other_key {
            entered.without_cycle()
        } else {
            entered
        }
    }

    /// Whether the tick ends at Tab: it was pressed on a line that stands at an argument of
    /// a command for which no candidates are known.
    pub open spec fn tab_ends_tick(
        self,
        config: &ConsoleConfiguration,
        keys: KeyFrame,
        tokens: Option<Seq<Seq<char>>>,
    ) -> bool {
        keys.tab && self.after_enter(config, keys, tokens).tabbed(config).outcome
            == Completion::NoSource
    }

    /// The state after the keys of a tick, with `tokens` the split of the input line as it
    /// stood before them.
    pub open spec fn after_keys(
        self,
        config: &ConsoleConfiguration,
        keys: KeyFrame,
        tokens: Option<Seq<Seq<char>>>,
    ) -> ConsoleView {
        let typed = self.after_typing(config, keys, tokens);
        if self.tab_ends_tick(config, keys, tokens) {
            typed
        } else {
            typed.navigated(keys)
        }
    }

    /// What a press of Tab makes of the state under a configuration.
    pub open spec fn tabbed(self, config: &ConsoleConfiguration) -> crate::completion::TabResult {
        tab(
            self.buf,
            self.completions,
            config.commands.names(),
            config.indexed(),
            config.arg_completions@,
        )
    }

    /// The state after a press of Tab.
    pub open spec fn after_tab(self, config: &ConsoleConfiguration) -> ConsoleView {
        ConsoleView {
            buf: self.tabbed(config).line,
            completions: self.tabbed(config).cycle,
            ..self
        }
    }
}

} // verus!
