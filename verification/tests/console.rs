use bevy_console::completion::Completion;
use bevy_console::configuration::ConsoleConfiguration;
use bevy_console::console::{ConsoleCommandEntered, ConsoleState, KeyFrame, PrintConsoleLine};
use bevy_console::keys::KeyCode;

fn config_with(names: &[&'static str]) -> ConsoleConfiguration {
    let mut config = ConsoleConfiguration::default();
    for name in names {
        config.add_console_command(name, clap::Command::new(*name));
    }
    config
}

fn typed(text: &str) -> ConsoleState {
    let mut state = ConsoleState::default();
    state.buf = text.to_string();
    state
}

fn no_keys() -> KeyFrame {
    KeyFrame {
        enter: false,
        tab: false,
        other_key: false,
        focused: true,
        arrow_up: false,
        arrow_down: false,
    }
}

#[test]
fn default_configuration() {
    let config = ConsoleConfiguration::default();
    assert_eq!(config.keys, vec![KeyCode::Backquote]);
    assert_eq!(config.history_size, 20);
    assert_eq!(config.symbol, "$ ");
    assert_eq!(config.commands.len(), 0);
    assert_eq!(config.arg_completions.len(), 0);
}

#[test]
fn default_state() {
    let state = ConsoleState::default();
    assert_eq!(state.buf, "");
    assert!(state.scrollback.is_empty());
    assert!(state.completions.is_empty());
    assert_eq!(state.history.len(), 1);
    assert_eq!(state.history.index(), 0);
    assert_eq!(state.history.entry(0), "");
}

#[test]
fn dispatch_known_command() {
    let config = config_with(&["log"]);
    let mut state = typed("log hello 3");
    let entered = state.submit(&config);
    assert_eq!(
        entered,
        Some(ConsoleCommandEntered {
            command_name: "log".to_string(),
            args: vec!["hello".to_string(), "3".to_string()],
        })
    );
    assert_eq!(state.scrollback, vec!["$ log hello 3".to_string()]);
    assert_eq!(state.buf, "");
    assert_eq!(state.history.len(), 2);
    assert_eq!(state.history.entry(1), "log hello 3");
    assert_eq!(state.history.index(), 0);
}

#[test]
fn dispatch_unknown_command() {
    let config = config_with(&["log"]);
    let mut state = typed("foo");
    let entered = state.submit(&config);
    assert_eq!(entered, None);
    assert_eq!(state.scrollback, vec!["$ foo".to_string(), "error: Invalid command".to_string()]);
    assert_eq!(state.buf, "");
    assert_eq!(state.history.len(), 2);
    assert_eq!(state.history.entry(1), "foo");
}

#[test]
fn blank_submission() {
    let config = config_with(&["log"]);
    for text in ["", "   ", " \t ", "\u{a0}\u{3000}"] {
        let mut state = typed(text);
        let entered = state.submit(&config);
        assert_eq!(entered, None);
        assert_eq!(state.scrollback, vec![String::new()]);
        assert_eq!(state.buf, text);
        assert_eq!(state.history.len(), 1);
        assert_eq!(state.history.index(), 0);
    }
}

#[test]
fn malformed_submission() {
    let config = config_with(&["log"]);
    for text in ["log \"open", "log 'open", "log trailing\\"] {
        let mut state = typed(text);
        let entered = state.submit(&config);
        assert_eq!(entered, None);
        assert_eq!(
            state.scrollback,
            vec![format!("$ {}", text), "error: Malformed input".to_string()]
        );
        assert_eq!(state.buf, "");
        assert_eq!(state.history.len(), 2);
        assert_eq!(state.history.entry(1), text);
    }
}

#[test]
fn submission_without_tokens() {
    let config = config_with(&["log"]);
    let mut state = typed("# nothing but a comment");
    let entered = state.submit(&config);
    assert_eq!(entered, None);
    assert_eq!(state.scrollback, vec!["$ # nothing but a comment".to_string()]);
    assert_eq!(state.buf, "");
    assert_eq!(state.history.len(), 2);
}

#[test]
fn quoted_arguments_are_dispatched_whole() {
    let config = config_with(&["say"]);
    let mut state = typed("say \"hello world\" 'a b' c\\ d");
    let entered = state.submit(&config).unwrap();
    assert_eq!(entered.command_name, "say");
    assert_eq!(entered.args, vec!["hello world", "a b", "c d"]);
}

#[test]
fn echo_uses_the_prompt_symbol() {
    let mut config = config_with(&["log"]);
    config.symbol = "> ".to_string();
    let mut state = typed("log");
    state.submit(&config);
    assert_eq!(state.scrollback, vec!["> log".to_string()]);
}

#[test]
fn history_bound() {
    for history_size in [0usize, 1, 3, 20] {
        let mut config = config_with(&["log"]);
        config.history_size = history_size;
        let mut state = ConsoleState::default();
        for i in 0..history_size + 5 {
            state.buf = format!("log {}", i);
            state.submit(&config);
        }
        assert_eq!(state.history.len(), history_size + 1);
        for slot in 1..=history_size {
            assert_eq!(
                state.history.entry(slot),
                &format!("log {}", history_size + 5 - slot)
            );
        }
    }
}

#[test]
fn history_keeps_repeated_lines() {
    let config = config_with(&["log"]);
    let mut state = ConsoleState::default();
    for _ in 0..3 {
        state.buf = "log again".to_string();
        state.submit(&config);
    }
    assert_eq!(state.history.len(), 4);
}

#[test]
fn history_preserves_unsaved_edit() {
    let config = config_with(&["log"]);
    let mut state = typed("log one");
    state.submit(&config);
    state.buf = "partial".to_string();
    assert!(state.history_up());
    assert_eq!(state.buf, "log one");
    assert_eq!(state.history.index(), 1);
    assert!(state.history_down());
    assert_eq!(state.buf, "partial");
    assert_eq!(state.history.index(), 0);
}

#[test]
fn history_navigation_stops_at_both_ends() {
    let config = config_with(&["log"]);
    let mut state = ConsoleState::default();
    assert!(!state.history_up());
    assert!(!state.history_down());
    for line in ["log 1", "log 2"] {
        state.buf = line.to_string();
        state.submit(&config);
    }
    assert!(state.history_up());
    assert_eq!(state.buf, "log 2");
    assert!(state.history_up());
    assert_eq!(state.buf, "log 1");
    assert!(!state.history_up());
    assert_eq!(state.buf, "log 1");
    assert!(state.history_down());
    assert_eq!(state.buf, "log 2");
    assert!(state.history_down());
    assert_eq!(state.buf, "");
    assert!(!state.history_down());
}

#[test]
fn blank_edit_is_not_saved_on_the_way_up() {
    let config = config_with(&["log"]);
    let mut state = typed("log one");
    state.submit(&config);
    state.buf = "kept".to_string();
    state.history_up();
    state.history_down();
    state.buf = "   ".to_string();
    state.history_up();
    state.history_down();
    assert_eq!(state.buf, "kept");
}

#[test]
fn navigation_leaves_scrollback_alone() {
    let config = config_with(&["log"]);
    let mut state = typed("log one");
    state.submit(&config);
    let shown = state.scrollback.clone();
    state.history_up();
    state.history_down();
    assert_eq!(state.scrollback, shown);
}

#[test]
fn command_name_completion() {
    let config = config_with(&["list", "load", "log"]);
    let mut state = typed("lo");
    assert_eq!(state.complete(&config), Completion::Started);
    assert_eq!(state.buf, "load");
    assert_eq!(state.completions, vec!["load", "log"]);
    assert_eq!(state.complete(&config), Completion::Cycled);
    assert_eq!(state.buf, "log");
    assert_eq!(state.completions, vec!["load", "log"]);
    assert_eq!(state.complete(&config), Completion::Cycled);
    assert_eq!(state.buf, "load");
}

#[test]
fn command_name_completion_of_one_letter() {
    let config = config_with(&["log", "list", "load"]);
    let mut state = typed("l");
    state.complete(&config);
    assert_eq!(state.buf, "list");
    assert_eq!(state.completions, vec!["list", "load", "log"]);
    state.complete(&config);
    assert_eq!(state.buf, "load");
    state.complete(&config);
    assert_eq!(state.buf, "log");
    state.complete(&config);
    assert_eq!(state.buf, "list");
}

#[test]
fn completion_of_the_empty_line_offers_every_command() {
    let config = config_with(&["log", "help", "clear"]);
    let mut state = typed("");
    assert_eq!(state.complete(&config), Completion::Started);
    assert_eq!(state.buf, "clear");
    assert_eq!(state.completions, vec!["clear", "help", "log"]);
}

#[test]
fn completion_of_the_empty_line_without_commands() {
    let config = ConsoleConfiguration::default();
    let mut state = typed("");
    state.completions = vec!["stale".to_string()];
    assert_eq!(state.complete(&config), Completion::NoMatch);
    assert_eq!(state.buf, "");
    assert!(state.completions.is_empty());
}

#[test]
fn completion_without_match_changes_nothing() {
    let config = config_with(&["log"]);
    let mut state = typed("x");
    assert_eq!(state.complete(&config), Completion::NoMatch);
    assert_eq!(state.buf, "x");
    assert!(state.completions.is_empty());
}

#[test]
fn completion_of_a_name_that_is_a_prefix_of_another() {
    let config = config_with(&["logs", "log", "login"]);
    let mut state = typed("log");
    state.complete(&config);
    assert_eq!(state.completions, vec!["log", "login", "logs"]);
    assert_eq!(state.buf, "log");
    state.complete(&config);
    assert_eq!(state.buf, "login");
}

#[test]
fn completion_sees_the_index_as_last_rebuilt() {
    let mut config = config_with(&["log"]);
    config.commands.register("load", clap::Command::new("load"));
    let mut state = typed("lo");
    state.complete(&config);
    assert_eq!(state.completions, vec!["log"]);
    config.build_command_trie();
    let mut state = typed("lo");
    state.complete(&config);
    assert_eq!(state.completions, vec!["load", "log"]);
}

#[test]
fn argument_completion_after_a_space() {
    let mut config = config_with(&["spawn"]);
    config.arg_completions.register(
        "spawn",
        vec!["tree".to_string(), "rock".to_string(), "bush".to_string()],
    );
    let mut state = typed("spawn ");
    assert_eq!(state.complete(&config), Completion::Started);
    assert_eq!(state.buf, "spawn tree");
    assert_eq!(state.completions, vec!["tree", "rock", "bush"]);
    assert_eq!(state.complete(&config), Completion::Cycled);
    assert_eq!(state.buf, "spawn rock");
    state.complete(&config);
    assert_eq!(state.buf, "spawn bush");
    state.complete(&config);
    assert_eq!(state.buf, "spawn tree");
}

#[test]
fn argument_completion_in_the_middle_of_a_word() {
    let mut config = config_with(&["spawn"]);
    config.arg_completions.register(
        "spawn",
        vec![
            "tree".to_string(),
            "rock".to_string(),
            "trap".to_string(),
            "tr".to_string(),
            "tree".to_string(),
        ],
    );
    let mut state = typed("spawn  big tr");
    assert_eq!(state.complete(&config), Completion::Started);
    assert_eq!(state.completions, vec!["tr", "trap", "tree"]);
    assert_eq!(state.buf, "spawn big tr");
    state.complete(&config);
    assert_eq!(state.buf, "spawn big trap");
}

#[test]
fn argument_completion_without_candidates() {
    let mut config = config_with(&["spawn", "log"]);
    config.arg_completions.register("spawn", vec![]);
    let mut state = typed("log x");
    assert_eq!(state.complete(&config), Completion::NoSource);
    assert_eq!(state.buf, "log x");
    let mut state = typed("spawn ");
    assert_eq!(state.complete(&config), Completion::NoMatch);
    assert_eq!(state.buf, "spawn ");
    let mut state = typed("spawn x");
    assert_eq!(state.complete(&config), Completion::NoMatch);
    assert_eq!(state.buf, "spawn x");
    let mut state = typed(" ");
    assert_eq!(state.complete(&config), Completion::NoSource);
    assert_eq!(state.buf, " ");
}

#[test]
fn any_other_key_ends_the_cycle() {
    let config = config_with(&["list", "load", "log"]);
    let mut state = typed("l");
    state.complete(&config);
    assert_eq!(state.buf, "list");
    state.reset_completions();
    assert!(state.completions.is_empty());
    state.complete(&config);
    assert_eq!(state.buf, "list");
    assert_eq!(state.completions, vec!["list"]);
}

#[test]
fn completion_of_names_beyond_ascii() {
    let config = config_with(&["über", "übung", "uber", "アップル"]);
    let mut state = typed("ü");
    state.complete(&config);
    assert_eq!(state.completions, vec!["über", "übung"]);
    let mut state = typed("ア");
    state.complete(&config);
    assert_eq!(state.buf, "アップル");
}

#[test]
fn printed_lines_reach_the_scrollback_in_order() {
    let mut state = ConsoleState::default();
    state.append("first".to_string());
    state.receive_console_line(&vec![
        PrintConsoleLine::new("second".to_string()),
        PrintConsoleLine::new("third".to_string()),
    ]);
    assert_eq!(state.scrollback, vec!["first", "second", "third"]);
    state.clear_scrollback();
    assert!(state.scrollback.is_empty());
}

#[test]
fn clear_input_keeps_the_rest() {
    let config = config_with(&["log"]);
    let mut state = typed("log 1");
    state.submit(&config);
    state.buf = "half".to_string();
    state.clear_input();
    assert_eq!(state.buf, "");
    assert_eq!(state.scrollback, vec!["$ log 1"]);
    assert_eq!(state.history.len(), 2);
}

#[test]
fn keys_of_a_tick_enter() {
    let config = config_with(&["log"]);
    let mut state = typed("log hello");
    let reaction = state.handle_keys(&config, KeyFrame { enter: true, ..no_keys() });
    assert_eq!(reaction.entered.unwrap().args, vec!["hello"]);
    assert!(reaction.refocus);
    assert!(!reaction.cursor_to_end);
    assert_eq!(state.buf, "");
}

#[test]
fn keys_of_a_tick_tab_then_other_key() {
    let config = config_with(&["list", "log"]);
    let mut state = typed("l");
    let reaction = state.handle_keys(&config, KeyFrame { tab: true, ..no_keys() });
    assert_eq!(reaction.entered, None);
    assert_eq!(state.buf, "list");
    assert_eq!(state.completions.len(), 2);
    state.handle_keys(&config, no_keys());
    assert_eq!(state.completions.len(), 2);
    state.handle_keys(&config, KeyFrame { other_key: true, ..no_keys() });
    assert!(state.completions.is_empty());
}

#[test]
fn keys_of_a_tick_arrows() {
    let config = config_with(&["log"]);
    let mut state = typed("log 1");
    state.submit(&config);
    state.buf = "partial".to_string();
    let unfocused = KeyFrame { arrow_up: true, focused: false, ..no_keys() };
    let reaction = state.handle_keys(&config, unfocused);
    assert!(!reaction.cursor_to_end);
    assert_eq!(state.buf, "partial");
    let reaction = state.handle_keys(&config, KeyFrame { arrow_up: true, ..no_keys() });
    assert!(reaction.cursor_to_end);
    assert_eq!(state.buf, "log 1");
    let reaction = state.handle_keys(&config, KeyFrame { arrow_up: true, ..no_keys() });
    assert!(!reaction.cursor_to_end);
    let reaction = state.handle_keys(&config, KeyFrame { arrow_down: true, ..no_keys() });
    assert!(reaction.cursor_to_end);
    assert_eq!(state.buf, "partial");
}

#[test]
fn keys_of_a_tick_tab_without_source_ends_the_tick() {
    let config = config_with(&["log"]);
    let mut state = typed("log 1");
    state.submit(&config);
    state.buf = "log x".to_string();
    let keys = KeyFrame { tab: true, arrow_up: true, ..no_keys() };
    let reaction = state.handle_keys(&config, keys);
    assert!(!reaction.refocus);
    assert!(!reaction.cursor_to_end);
    assert_eq!(state.buf, "log x");
    assert_eq!(state.history.index(), 0);
}

#[test]
fn registration_overwrites_and_says_so() {
    let mut config = ConsoleConfiguration::default();
    assert!(!config.add_console_command("log", clap::Command::new("log")));
    assert!(config.add_console_command("log", clap::Command::new("log").about("again")));
    assert_eq!(config.commands.len(), 1);
    let about = config.commands.lookup("log").unwrap().get_about().unwrap().to_string();
    assert_eq!(about, "again");
    assert!(config.commands.lookup("lo").is_none());
    assert!(config.commands.lookup("logs").is_none());
}

#[test]
fn clone_of_a_configuration_starts_with_an_empty_index() {
    let mut config = config_with(&["list", "log"]);
    config.history_size = 7;
    config.symbol = "# ".to_string();
    config.keys = vec![KeyCode::F1, KeyCode::Backquote];
    config.arg_completions.register("log", vec!["a".to_string()]);
    let copy = config.clone();
    assert_eq!(copy.keys, config.keys);
    assert_eq!(copy.history_size, 7);
    assert_eq!(copy.symbol, "# ");
    assert_eq!(copy.commands.name_list(), vec!["list", "log"]);
    assert_eq!(copy.arg_completions.lookup("log"), Some(&vec!["a".to_string()]));
    let mut state = typed("l");
    assert_eq!(state.complete(&copy), Completion::NoMatch);
    let mut copy = copy;
    copy.build_command_trie();
    assert_eq!(state.complete(&copy), Completion::Started);
    assert_eq!(state.buf, "list");
}

#[test]
fn cycling_rebuilds_the_line_from_its_words() {
    let config = config_with(&["spawn"]);
    let mut state = typed("spawn   tree ");
    state.completions = vec!["tree".to_string(), "rock".to_string()];
    assert_eq!(state.complete(&config), Completion::Cycled);
    assert_eq!(state.buf, "spawn rock");
    assert_eq!(state.complete(&config), Completion::Cycled);
    assert_eq!(state.buf, "spawn tree");
    assert_eq!(state.completions, vec!["tree", "rock"]);
}

#[test]
fn cycling_takes_the_first_occurrence_of_a_repeated_candidate() {
    let config = config_with(&["spawn"]);
    let mut state = typed("a");
    state.completions = vec!["a".to_string(), "b".to_string(), "a".to_string(), "c".to_string()];
    state.complete(&config);
    assert_eq!(state.buf, "b");
    state.complete(&config);
    assert_eq!(state.buf, "a");
    state.complete(&config);
    assert_eq!(state.buf, "b");
}

#[test]
fn argument_completion_keeps_the_earlier_words() {
    let mut config = config_with(&["give"]);
    config.arg_completions.register(
        "give",
        vec!["sword".to_string(), "shield".to_string(), "potion".to_string()],
    );
    let mut state = typed("give player s");
    assert_eq!(state.complete(&config), Completion::Started);
    assert_eq!(state.buf, "give player shield");
    assert_eq!(state.completions, vec!["shield", "sword"]);
    state.complete(&config);
    assert_eq!(state.buf, "give player sword");
    let mut state = typed("give player ");
    state.complete(&config);
    assert_eq!(state.buf, "give player sword");
    assert_eq!(state.completions, vec!["sword", "shield", "potion"]);
}
