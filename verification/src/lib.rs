//! A library for building command-line interfaces from commands, options and
//! arguments, with help generation and shell completion.

pub mod text;
pub mod error;
pub mod strmap;
pub mod parser;
pub mod parameter;
pub mod source;
pub mod formatting;
pub mod types;
pub mod context;
pub mod argument;
pub mod option;
pub mod command;
pub mod group;
pub mod termui;
pub mod decorators;
pub mod complete;
pub mod completion;
pub mod testing;
pub mod laws;
