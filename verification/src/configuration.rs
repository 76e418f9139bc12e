//! The configuration of a console: the keys that toggle it, the registered commands, the
//! prompt, the length of the history and the candidates for arguments.

use crate::keys::KeyCode;
use crate::prefix_index::PrefixIndex;
use crate::registry::Registry;
use vstd::prelude::*;

verus! {

/// `clap::Command`: the signature of a command. The registry keeps it for the handlers of
/// the commands and reads nothing from it.
#[verifier::external_type_specification]
#[verifier::external_body]
pub struct ExCommand(clap::Command);

/// The configuration of a console.
pub struct ConsoleConfiguration {
    /// The keys that open and close the console.
    pub keys: Vec<KeyCode>,
    /// The registered commands, each under its name with its signature.
    pub commands: Registry<clap::Command>,
    /// How many submitted lines the history keeps.
    pub history_size: usize,
    /// What stands before a line that is echoed.
    pub symbol: String,
    /// For the name of a command, the candidates for its arguments.
    pub arg_completions: Registry<Vec<String>>,
    /// The prefix index over the names of the commands, as of the last rebuild.
    pub commands_trie: PrefixIndex,
}

impl ConsoleConfiguration {
    /// The names that the prefix index holds: those of the commands as they stood when the
    /// index was last rebuilt.
    pub open spec fn indexed(&self) -> Seq<Seq<char>> {
        self.commands_trie@
    }

    /// The two tables and the prefix index are sound.
    pub open spec fn wf(&self) -> bool {
        &&& self.commands.wf()
        &&& self.arg_completions.wf()
        &&& self.commands_trie.wf()
    }

    /// Rebuilds the prefix index from the names of the commands as they stand.
    pub fn build_command_trie(&mut self)
        requires
            old(self).wf(),
        ensures
            final(self).wf(),
            final(self).indexed() == old(self).commands.names(),
            final(self).keys == old(self).keys,
            final(self).commands == old(self).commands,
            final(self).history_size == old(self).history_size,
            final(self).symbol == old(self).symbol,
            final(self).arg_completions == old(self).arg_completions,
    {
        let names = self.commands.name_list();
        self.commands_trie = PrefixIndex::build(&names);
    }

    /// Registers a command under its name and rebuilds the prefix index. A command that stood
    /// under the name is replaced; the result says whether there was one, so that the caller
    /// can warn of it.
    pub fn add_console_command(&mut self, name: &str, command: clap::Command) -> (overwritten:
        bool)
        requires
            old(self).wf(),
        ensures
            final(self).wf(),
            overwritten == old(self).commands@.dom().contains(name@),
            final(self).commands@ == old(self).commands@.insert(name@, command),
            final(self).indexed() == final(self).commands.names(),
            final(self).keys == old(self).keys,
            final(self).history_size == old(self).history_size,
            final(self).symbol == old(self).symbol,
            final(self).arg_completions == old(self).arg_completions,
    {
        let replaced = self.commands.register(name, command);
        self.build_command_trie();
        replaced.is_some()
    }
}

impl Default for ConsoleConfiguration {
    /// The console opens on the backquote key, keeps 20 lines of history and prompts with
    /// `$ `; no command is registered and no candidate known.
    fn default() -> (r: Self)
        ensures
            r.wf(),
            r.keys@ == seq![KeyCode::Backquote],
            r.commands@ == Map::<Seq<char>, clap::Command>::empty(),
            r.history_size == 20,
            r.symbol@ == "$ "@,
            r.arg_completions@ == Map::<Seq<char>, Vec<String>>::empty(),
            r.indexed() == Seq::<Seq<char>>::empty(),
    {
        let mut keys: Vec<KeyCode> = Vec::new();
        keys.push(KeyCode::Backquote);
        assert(keys@ =~= seq![KeyCode::Backquote]);
        ConsoleConfiguration {
            keys,
            commands: Registry::new(),
            history_size: 20,
            symbol: "$ ".to_owned(),
            arg_completions: Registry::new(),
            commands_trie: PrefixIndex::empty(),
        }
    }
}

impl Clone for ConsoleConfiguration {
    /// A copy of the configuration. The prefix index is not copied: the copy starts with an
    /// empty one, to be rebuilt.
    fn clone(&self) -> (r: Self)
        ensures
            self.wf() ==> r.wf(),
            r.keys@ == self.keys@,
            r.commands.names() == self.commands.names(),
            r.commands.values().len() == self.commands.values().len(),
            forall|i: int|
                #![all_triggers]
                0 <= i < self.commands.values().len() ==> cloned::<clap::Command>(
                    self.commands.values()[i],
                    r.commands.values()[i],
                ),
            r.history_size == self.history_size,
            r.symbol@ == self.symbol@,
            r.arg_completions.names() == self.arg_completions.names(),
            r.arg_completions.values().len() == self.arg_completions.values().len(),
            forall|i: int|
                0 <= i < self.arg_completions.values().len() ==> (
                #[trigger] r.arg_completions.values()[i]).deep_view()
                    == self.arg_completions.values()[i].deep_view(),
            r.indexed() == Seq::<Seq<char>>::empty(),
    {
        let mut keys: Vec<KeyCode> = Vec::new();
        let mut i: usize = 0;
        while i < self.keys.len()
            invariant
                i <= self.keys.len(),
                keys@ =~= self.keys@.take(i as int),
            decreases self.keys.len() - i,
        {
            keys.push(self.keys[i]);
            i += 1;
        }
        assert(self.keys@.take(i as int) =~= self.keys@);
        ConsoleConfiguration {
            keys,
            commands: self.commands.clone(),
            history_size: self.history_size,
            symbol: self.symbol.clone(),
            arg_completions: self.arg_completions.copy(),
            commands_trie: PrefixIndex::empty(),
        }
    }
}

} // verus!
