//! Laws of the library that relate several of its functions, with the
//! lemmas about the grammar from which they are proved:
//!
//! - [`roundtrip::round_trip`]: reading the canonical text of a value gives
//!   the value back;
//! - [`sound::literal_errors_are_overflows`]: a literal error of a text that
//!   matches the grammar is a number that does not fit;
//! - [`spans::parse_tree_in_bounds`]: every node of a parse tree spans a
//!   part of the text;
//! - [`shapes::parse_tree_well_labelled`]: the nodes inside a node of a
//!   parse tree are of the rules that the expression of the node's rule
//!   names.

pub mod blanks;

pub mod dicts;

pub mod floats;

pub mod kinds;

pub mod layout;

pub mod lists;

pub mod matches;

pub mod numerals;

pub mod roundtrip;

pub mod shapes;

pub mod sound;

pub mod spans;

pub mod words;
