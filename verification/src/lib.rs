//! An interactive, line-oriented command console: registry, tokenizer, history, scrollback,
//! tab completion and dispatch, with every function checked against its contract by Verus.

pub mod command;
pub mod completion;
pub mod configuration;
pub mod console;
pub mod history;
pub mod keys;
pub mod names;
pub mod order;
pub mod prefix_index;
pub mod registry;
pub mod text;
pub mod tokenizer;
pub mod trie;
