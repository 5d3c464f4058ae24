//! The names of the grammar's rules.

use vstd::prelude::*;

verus! {

/// One name per rule of the grammar. A node of a parse tree carries the name
/// of the rule that matched its span.
#[allow(dead_code, non_camel_case_types)]
#[derive(Clone, Copy, Debug, Eq, Hash, Ord, PartialEq, PartialOrd, Structural)]
pub enum Rule {
    EOI,
    program,
    statement,
    EmptyLine,
    RestOfLine,
    include_statement,
    import_statement,
    dict_scope,
    dict_head,
    dict_pair,
    list_scope,
    list_head,
    list_pair,
    Insert,
    Append,
    dict_literal,
    list_literal,
    data,
    Special,
    cite_value,
    Byte,
    Byte_BIN,
    Byte_OCT,
    Byte_HEX,
    Number,
    SignedNumber,
    Decimal,
    DecimalBad,
    Integer,
    Exponent,
    String,
    StringNormal,
    StringApostrophe,
    StringQuotation,
    InlineString,
    RestLineText,
    Apostrophe,
    Quotation,
    namespace,
    Key,
    SYMBOL,
    ExtraID,
    COMMENT,
    WHITESPACE,
    LineComment,
    MultiLineComment,
    Dot,
    Escape,
    Underline,
    SEPARATOR,
    /// The sign between a key and its value: `=` or `:`.
    Assign,
    Sign,
}

} // verus!
