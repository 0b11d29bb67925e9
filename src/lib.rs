//! A small interactive command interpreter: tokenizing of input lines, lookup of
//! programs on the search path, decisions of the command dispatcher and tab
//! completion, each stated and proved over plain values. Reading the terminal,
//! the file system and the environment is left to the caller.
pub mod text;
pub mod tokenizer;
pub mod path_search;
pub mod dispatch;
pub mod candidate;
pub mod completion;
pub mod repl;
