//! Parsing command line arguments.
//!
//! There are two ways to read a command line with this crate.
//!
//! - [`parse`] lexes the arguments into an [`ArgumentBag`], from which the caller takes
//!   flags, options and operands one by one, in any order. The grammar is that of
//!   `--flag`, `--option=value` and `-x`.
//! - A [`Command`] describes which flags, props and subcommands are valid.
//!   [`Command::parse_from`] groups the arguments into an [`Args`] tree, checks the tree
//!   against the description and replaces every alias by its canonical name. The grammar
//!   is that of `+flag`, `prop=value` and bare subcommand names.
//!
//! Every function states what it returns over a mathematical model of its arguments, and
//! is verified against that statement. The models are the `...View` types and the `spec`
//! functions beside each function; the laws that relate several functions are the
//! `lemma_...` proof functions.

pub mod args;
pub mod argument;
pub mod bag;
pub mod cmdline;
pub mod command;
pub mod parser;
pub mod search;
pub mod text;
pub mod token;
pub mod tokenizer;

pub use crate::args::Args;
pub use crate::bag::ArgumentBag;
pub use crate::command::{ArgumentKind, Command, Flag, InvalidArguments, Prop};
pub use crate::token::ParseError;
pub use crate::tokenizer::parse;
