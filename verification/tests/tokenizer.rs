use bevy_console::tokenizer::{tokenize, TokenizeError};

fn words(line: &str) -> Vec<String> {
    tokenize(line).unwrap()
}

#[test]
fn tokenizer_splits_on_unquoted_whitespace() {
    assert_eq!(words("log hello 3"), vec!["log", "hello", "3"]);
    assert_eq!(words("  log\t hello \n 3  "), vec!["log", "hello", "3"]);
    assert_eq!(words("log"), vec!["log"]);
}

#[test]
fn tokenizer_round_trip_of_quoted_tokens() {
    let tokens = ["hello world", "a  b", " lead", "trail ", "plain", "tab\there", ""];
    let double: Vec<String> = tokens.iter().map(|t| format!("\"{}\"", t)).collect();
    assert_eq!(words(&double.join(" ")), tokens);
    let single: Vec<String> = tokens.iter().map(|t| format!("'{}'", t)).collect();
    assert_eq!(words(&single.join(" ")), tokens);
}

#[test]
fn tokenizer_round_trip_of_quotes_inside_quotes() {
    assert_eq!(words("'say \"hi\" now' \"it's here\""), vec!["say \"hi\" now", "it's here"]);
}

#[test]
fn tokenizer_backslash_escapes_the_next_character() {
    assert_eq!(words("a\\ b c"), vec!["a b", "c"]);
    assert_eq!(words("\\\"quoted\\\""), vec!["\"quoted\""]);
    assert_eq!(words("\"a \\\" b\""), vec!["a \" b"]);
}

#[test]
fn tokenizer_joins_adjacent_quoted_parts() {
    assert_eq!(words("pre\"mid dle\"post"), vec!["premid dlepost"]);
}

#[test]
fn tokenizer_yields_nothing_for_blank_input() {
    assert_eq!(words(""), Vec::<String>::new());
    assert_eq!(words("   \t "), Vec::<String>::new());
}

#[test]
fn tokenizer_refuses_malformed_quoting() {
    assert_eq!(tokenize("log \"unterminated"), Err(TokenizeError));
    assert_eq!(tokenize("log 'unterminated"), Err(TokenizeError));
    assert_eq!(tokenize("log trailing\\"), Err(TokenizeError));
    assert_eq!(tokenize("\""), Err(TokenizeError));
}

#[test]
fn tokenizer_keeps_text_beyond_ascii() {
    assert_eq!(words("grüße 'アップル 🍎'"), vec!["grüße", "アップル 🍎"]);
}
