use bevy_console::names::{rank_names, same_name};
use bevy_console::order::{rank_bytes, Rank};
use bevy_console::prefix_index::{text_of, PrefixIndex};
use bevy_console::registry::Registry;

fn strings(words: &[&str]) -> Vec<String> {
    words.iter().map(|w| w.to_string()).collect()
}

#[test]
fn bytes_are_ranked_position_by_position() {
    assert_eq!(rank_bytes(b"", b""), Rank::Same);
    assert_eq!(rank_bytes(b"", b"a"), Rank::Before);
    assert_eq!(rank_bytes(b"a", b""), Rank::After);
    assert_eq!(rank_bytes(b"abc", b"abd"), Rank::Before);
    assert_eq!(rank_bytes(b"abd", b"abc"), Rank::After);
    assert_eq!(rank_bytes(b"ab", b"abc"), Rank::Before);
    assert_eq!(rank_bytes(b"abc", b"ab"), Rank::After);
    assert_eq!(rank_bytes(b"abc", b"abc"), Rank::Same);
    assert_eq!(rank_bytes(&[0x7f], &[0x80]), Rank::Before);
    assert_eq!(rank_bytes(b"b", b"abc"), Rank::After);
}

#[test]
fn names_are_ranked_as_str_orders_them() {
    let names = ["", "a", "ab", "b", "Z", "é", "z", "アップル", "🍎", "a b", "~"];
    for a in names {
        for b in names {
            let expected = if a < b {
                Rank::Before
            } else if a == b {
                Rank::Same
            } else {
                Rank::After
            };
            assert_eq!(rank_names(a, b), expected);
            assert_eq!(same_name(a, b), a == b);
        }
    }
}

#[test]
fn text_of_valid_bytes() {
    assert_eq!(text_of(&"héllo, アップル 🍎".as_bytes().to_vec()), "héllo, アップル 🍎");
    assert_eq!(text_of(&vec![]), "");
    assert_eq!(text_of(&vec![0x6c, 0x6f, 0x67]), "log");
}

#[test]
fn registry_holds_names_in_order() {
    let mut registry: Registry<u32> = Registry::new();
    assert_eq!(registry.len(), 0);
    assert_eq!(registry.register("log", 1), None);
    assert_eq!(registry.register("clear", 2), None);
    assert_eq!(registry.register("help", 3), None);
    assert_eq!(registry.register("zoom", 4), None);
    assert_eq!(registry.register("", 5), None);
    assert_eq!(registry.name_list(), strings(&["", "clear", "help", "log", "zoom"]));
    assert_eq!(registry.len(), 5);
    assert_eq!(registry.name_at(1), "clear");
    assert_eq!(*registry.value_at(1), 2);
    assert_eq!(registry.lookup("help"), Some(&3));
    assert_eq!(registry.lookup(""), Some(&5));
    assert_eq!(registry.lookup("hel"), None);
    assert_eq!(registry.lookup("helps"), None);
    assert!(registry.contains("zoom"));
    assert!(!registry.contains("Zoom"));
}

#[test]
fn registry_last_writer_wins() {
    let mut registry: Registry<u32> = Registry::new();
    registry.register("log", 1);
    registry.register("help", 2);
    assert_eq!(registry.register("log", 10), Some(1));
    assert_eq!(registry.register("log", 11), Some(10));
    assert_eq!(registry.len(), 2);
    assert_eq!(registry.lookup("log"), Some(&11));
    assert_eq!(registry.lookup("help"), Some(&2));
}

#[test]
fn registry_clone_and_copy() {
    let mut registry: Registry<u32> = Registry::new();
    for (i, name) in ["d", "b", "a", "c"].iter().enumerate() {
        registry.register(name, i as u32);
    }
    let twin = registry.clone();
    assert_eq!(twin.name_list(), strings(&["a", "b", "c", "d"]));
    assert_eq!(twin.lookup("d"), Some(&0));
    let mut table: Registry<Vec<String>> = Registry::new();
    table.register("spawn", strings(&["tree", "rock"]));
    table.register("log", strings(&[]));
    let copy = table.copy();
    assert_eq!(copy.name_list(), strings(&["log", "spawn"]));
    assert_eq!(copy.lookup("spawn"), Some(&strings(&["tree", "rock"])));
    assert_eq!(copy.lookup("log"), Some(&strings(&[])));
}

#[test]
fn registry_with_many_names() {
    let mut registry: Registry<usize> = Registry::new();
    let mut expected = Vec::new();
    for i in 0..200usize {
        let name = format!("cmd{}", (i * 37) % 200);
        registry.register(&name, i);
        expected.push(name);
    }
    expected.sort();
    assert_eq!(registry.name_list(), expected);
    for i in 0..200usize {
        let name = format!("cmd{}", (i * 37) % 200);
        assert_eq!(registry.lookup(&name), Some(&i));
    }
}

#[test]
fn prefix_index_finds_names_in_order() {
    let index = PrefixIndex::of(&strings(&["a", "app", "apple", "better", "application", "アップル🍎"]));
    assert_eq!(index.search("a"), strings(&["a", "app", "apple", "application"]));
    assert_eq!(index.search("app"), strings(&["app", "apple", "application"]));
    assert_eq!(index.search("appl"), strings(&["apple", "application"]));
    assert_eq!(index.search("apple"), strings(&["apple"]));
    assert_eq!(index.search("b"), strings(&["better"]));
    assert_eq!(index.search("c"), strings(&[]));
    assert_eq!(index.search("アップ"), strings(&["アップル🍎"]));
    assert_eq!(index.search("appler"), strings(&[]));
}

#[test]
fn prefix_index_takes_words_in_any_order_and_more_than_once() {
    let index = PrefixIndex::of(&strings(&["apple", "app", "a", "app", "", "b", "apple"]));
    assert_eq!(index.search("a"), strings(&["a", "app", "apple"]));
    assert_eq!(index.search("ap"), strings(&["app", "apple"]));
    assert_eq!(index.search("b"), strings(&["b"]));
}

#[test]
fn prefix_index_built_from_ordered_names() {
    let index = PrefixIndex::build(&strings(&["", "list", "load", "log"]));
    assert_eq!(index.search("l"), strings(&["list", "load", "log"]));
    assert_eq!(index.search("lo"), strings(&["load", "log"]));
    assert_eq!(index.search("log"), strings(&["log"]));
    assert_eq!(index.search("logs"), strings(&[]));
    let empty = PrefixIndex::empty();
    assert_eq!(empty.search("l"), strings(&[]));
}
