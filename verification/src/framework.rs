//! The command framework: the text grammar, typed parameters, commands and
//! the tree of groups they are registered in.
pub mod commands;
pub mod grammar;
pub mod groups;
pub mod help;
pub mod parameters;
pub mod text;
