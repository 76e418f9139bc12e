use bevy_console::command::{find_entered, ConsoleCommand};
use bevy_console::completion::position;
use bevy_console::console::{ConsoleCommandEntered, PrintConsoleLine};
use bevy_console::history::HistoryBuffer;

fn entered(name: &str, args: &[&str]) -> ConsoleCommandEntered {
    ConsoleCommandEntered {
        command_name: name.to_string(),
        args: args.iter().map(|a| a.to_string()).collect(),
    }
}

fn texts(lines: Vec<PrintConsoleLine>) -> Vec<String> {
    lines.into_iter().map(|l| l.line).collect()
}

#[test]
fn first_entered_command_of_a_name() {
    let events = vec![entered("help", &[]), entered("log", &["a"]), entered("log", &["b"])];
    assert_eq!(find_entered(&events, "log"), Some(1));
    assert_eq!(find_entered(&events, "help"), Some(0));
    assert_eq!(find_entered(&events, "lo"), None);
    assert_eq!(find_entered(&vec![], "log"), None);
}

#[test]
fn entered_command_clones() {
    let event = entered("log", &["hello", "3"]);
    assert_eq!(event.clone(), event);
    let line = PrintConsoleLine::new("text".to_string());
    assert_eq!(line.clone(), line);
    assert_eq!(line.line, "text");
}

#[test]
fn command_is_taken_once() {
    let mut command: ConsoleCommand<u32, String> = ConsoleCommand::new(Some(Ok(7)));
    assert_eq!(command.take(), Some(Ok(7)));
    assert_eq!(command.take(), None);
    let mut absent: ConsoleCommand<u32, String> = ConsoleCommand::new(None);
    assert_eq!(absent.take(), None);
    assert!(texts(absent.drain()).is_empty());
}

#[test]
fn refused_command_prints_its_message() {
    let mut command: ConsoleCommand<u32, String> =
        ConsoleCommand::refused("bad".to_string(), "error: unexpected argument");
    assert_eq!(command.take(), Some(Err("bad".to_string())));
    assert_eq!(command.take(), None);
    assert_eq!(texts(command.drain()), vec!["error: unexpected argument"]);
}

#[test]
fn replies_are_printed_in_order() {
    let mut command: ConsoleCommand<u32, String> = ConsoleCommand::new(Some(Ok(1)));
    command.ok();
    command.failed();
    command.reply("one");
    command.reply_ok("two");
    command.reply_failed("three");
    assert_eq!(
        texts(command.drain()),
        vec!["[ok]", "[failed]", "one", "two", "[ok]", "three", "[failed]"]
    );
    assert!(texts(command.drain()).is_empty());
    command.reply("again");
    assert_eq!(texts(command.drain()), vec!["again"]);
    assert_eq!(command.take(), Some(Ok(1)));
}

#[test]
fn position_of_the_first_occurrence() {
    let list: Vec<String> = ["a", "b", "a", "c"].iter().map(|w| w.to_string()).collect();
    assert_eq!(position(&list, "a"), 0);
    assert_eq!(position(&list, "b"), 1);
    assert_eq!(position(&list, "c"), 3);
    assert_eq!(position(&list, "d"), 4);
    assert_eq!(position(&vec![], "a"), 0);
}

#[test]
fn history_records_under_a_limit() {
    let mut history = HistoryBuffer::new();
    history.record("one", 2);
    history.record("two", 2);
    assert_eq!(history.len(), 3);
    assert_eq!(history.entry(1), "two");
    assert_eq!(history.entry(2), "one");
    history.record("three", 2);
    assert_eq!(history.len(), 3);
    assert_eq!(history.entry(0), "");
    assert_eq!(history.entry(1), "three");
    assert_eq!(history.entry(2), "two");
    history.record("four", 0);
    assert_eq!(history.len(), 3);
    assert_eq!(history.entry(1), "four");
    assert_eq!(history.entry(2), "three");
    history.record("five", usize::MAX);
    assert_eq!(history.len(), 4);
}

#[test]
fn history_of_size_zero_keeps_nothing() {
    let mut history = HistoryBuffer::new();
    history.record("one", 0);
    assert_eq!(history.len(), 1);
    assert_eq!(history.entry(0), "");
    let mut input = "typed".to_string();
    assert!(!history.up(&mut input));
    assert_eq!(input, "typed");
}

#[test]
fn history_submission_resets_navigation() {
    let mut history = HistoryBuffer::new();
    history.record("one", 5);
    history.record("two", 5);
    let mut input = String::new();
    assert!(history.up(&mut input));
    assert!(history.up(&mut input));
    assert_eq!(history.index(), 2);
    assert_eq!(input, "one");
    history.record("three", 5);
    assert_eq!(history.index(), 0);
    assert!(history.up(&mut input));
    assert_eq!(input, "three");
}
