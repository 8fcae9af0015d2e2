//! Front end for a PEG-family grammar description language.
//!
//! The crate lowers the concrete syntax tree of a grammar source into blocks
//! of commands, resolves rule identifiers across blocks and files, and
//! assembles the rules of all files into one catalog keyed by fully-qualified
//! rule identifier. It also provides the hand-built catalog that describes
//! the grammar description language itself.

pub mod block;
pub mod blockparser;
pub mod bootstrap;
pub mod catalog;
pub mod closure;
pub mod command;
pub mod element;
pub mod error;
pub mod position;
pub mod resolve;
pub mod rule;
pub mod string_map;
pub mod text;
pub mod tree;
