//! Arc: a human-writable configuration language that contains JSON.
//!
//! The crate recognises Arc text with an ordered-choice grammar, builds a
//! document of [`Value`]s from the parse tree, prints documents back in a
//! canonical form, addresses them by position and key, and converts between
//! documents and JSON trees.

pub mod builder;

pub mod chars;

pub mod compare;

pub mod display;

pub mod document;

pub mod grammar;

pub mod json;

pub mod keys;

pub mod laws;

pub mod literal;

pub mod number;

pub mod parser;

pub mod peg;

pub mod rule;

pub mod scalar;

pub mod value;

pub use builder::{parse, parse_value, ParseError};
pub use json::{BridgeError, JsonTree};
pub use number::{Decimal, Number};
pub use parser::{ArcParser, SyntaxError};
pub use peg::Pair;
pub use rule::Rule;
pub use scalar::LiteralError;
pub use value::{Dict, KeyNode, KeyPath, Value};
