//! The grammar of Arc: one expression per rule.
//!
//! The rules of the lexical layer (numbers, strings, keys, comments) match
//! character by character. The structural rules allow white space and
//! comments between their parts: there [`skip`] stands. A reference to a rule
//! is either a `Node`, which leaves a node in the parse tree, or an `Inline`,
//! which leaves none; white space, comments, separators and the sign between
//! key and value leave none.

use vstd::prelude::*;
use crate::peg::{CharClass, Expr};
use crate::rule::Rule;

verus! {

/// `a`, then `b` where `a` ended.
#[verifier::allow_in_spec]
pub fn then(a: Expr, b: Expr) -> Expr
    returns
        Expr::Then(Box::new(a), Box::new(b)),
{
    Expr::Then(Box::new(a), Box::new(b))
}

/// `a`, or else `b` at the same position.
#[verifier::allow_in_spec]
pub fn or(a: Expr, b: Expr) -> Expr
    returns
        Expr::Or(Box::new(a), Box::new(b)),
{
    Expr::Or(Box::new(a), Box::new(b))
}

/// `a`, or nothing where `a` fails.
#[verifier::allow_in_spec]
pub fn opt(a: Expr) -> Expr
    returns
        Expr::Opt(Box::new(a)),
{
    Expr::Opt(Box::new(a))
}

/// `a`, as often as it matches.
#[verifier::allow_in_spec]
pub fn star(a: Expr) -> Expr
    returns
        Expr::Star(Box::new(a)),
{
    Expr::Star(Box::new(a))
}

/// Nothing, exactly where `a` fails.
#[verifier::allow_in_spec]
pub fn not(a: Expr) -> Expr
    returns
        Expr::Not(Box::new(a)),
{
    Expr::Not(Box::new(a))
}

/// The first of the 3 expressions that matches.
#[verifier::allow_in_spec]
pub fn or3(a: Expr, b: Expr, c: Expr) -> Expr
    returns
        or(a, or(b, c)),
{
    or(a, or(b, c))
}

/// The first of the 4 expressions that matches.
#[verifier::allow_in_spec]
pub fn or4(a: Expr, b: Expr, c: Expr, d: Expr) -> Expr
    returns
        or(a, or(b, or(c, d))),
{
    or(a, or(b, or(c, d)))
}

/// The first of the 6 expressions that matches.
#[verifier::allow_in_spec]
pub fn or6(a: Expr, b: Expr, c: Expr, d: Expr, e: Expr, f: Expr) -> Expr
    returns
        or(a, or(b, or(c, or(d, or(e, f))))),
{
    or(a, or(b, or(c, or(d, or(e, f)))))
}

/// The first of the 9 expressions that matches.
#[verifier::allow_in_spec]
pub fn or9(a: Expr, b: Expr, c: Expr, d: Expr, e: Expr, f: Expr, g: Expr, h: Expr, i: Expr) -> Expr
    returns
        or(a, or(b, or(c, or(d, or(e, or(f, or(g, or(h, i)))))))),
{
    or(a, or(b, or(c, or(d, or(e, or(f, or(g, or(h, i))))))))
}

/// The 3 expressions one after the other.
#[verifier::allow_in_spec]
pub fn then3(a: Expr, b: Expr, c: Expr) -> Expr
    returns
        then(then(a, b), c),
{
    then(then(a, b), c)
}

/// The 4 expressions one after the other.
#[verifier::allow_in_spec]
pub fn then4(a: Expr, b: Expr, c: Expr, d: Expr) -> Expr
    returns
        then(then(then(a, b), c), d),
{
    then(then(then(a, b), c), d)
}

/// The 5 expressions one after the other.
#[verifier::allow_in_spec]
pub fn then5(a: Expr, b: Expr, c: Expr, d: Expr, e: Expr) -> Expr
    returns
        then(then(then(then(a, b), c), d), e),
{
    then(then(then(then(a, b), c), d), e)
}

/// The 7 expressions one after the other.
#[verifier::allow_in_spec]
pub fn then7(a: Expr, b: Expr, c: Expr, d: Expr, e: Expr, f: Expr, g: Expr) -> Expr
    returns
        then(then(then(then(then(then(a, b), c), d), e), f), g),
{
    then(then(then(then(then(then(a, b), c), d), e), f), g)
}

/// A line break: `\n`, `\r\n` or `\r`.
#[verifier::allow_in_spec]
pub fn newline() -> Expr
    returns
        or3(Expr::Char('\n'), Expr::Lit("\r\n"), Expr::Char('\r')),
{
    or3(Expr::Char('\n'), Expr::Lit("\r\n"), Expr::Char('\r'))
}

/// White space and comments, as many as there are.
#[verifier::allow_in_spec]
pub fn skip() -> Expr
    returns
        then(
            star(Expr::Inline(Rule::WHITESPACE)),
            star(then(Expr::Inline(Rule::COMMENT), star(Expr::Inline(Rule::WHITESPACE)))),
        ),
{
    then(
        star(Expr::Inline(Rule::WHITESPACE)),
        star(then(Expr::Inline(Rule::COMMENT), star(Expr::Inline(Rule::WHITESPACE)))),
    )
}

/// A decimal digit.
#[verifier::allow_in_spec]
pub fn digit() -> Expr
    returns
        Expr::Range('0', '9'),
{
    Expr::Range('0', '9')
}

/// A hexadecimal digit.
#[verifier::allow_in_spec]
pub fn hex_digit() -> Expr
    returns
        or3(Expr::Range('0', '9'), Expr::Range('a', 'f'), Expr::Range('A', 'F')),
{
    or3(Expr::Range('0', '9'), Expr::Range('a', 'f'), Expr::Range('A', 'F'))
}

/// Decimal digits, each of which may follow one `_`.
#[verifier::allow_in_spec]
pub fn digits() -> Expr
    returns
        star(then(opt(Expr::Char('_')), digit())),
{
    star(then(opt(Expr::Char('_')), digit()))
}

/// The dots that may stand before the path of a header.
#[verifier::allow_in_spec]
pub fn dots() -> Expr
    returns
        opt(then(Expr::Node(Rule::Dot), star(then(skip(), Expr::Node(Rule::Dot))))),
{
    opt(then(Expr::Node(Rule::Dot), star(then(skip(), Expr::Node(Rule::Dot)))))
}

/// A pair, after a separator or none.
#[verifier::allow_in_spec]
pub fn pair_item() -> Expr
    returns
        then3(opt(Expr::Inline(Rule::SEPARATOR)), skip(), Expr::Node(Rule::dict_pair)),
{
    then3(opt(Expr::Inline(Rule::SEPARATOR)), skip(), Expr::Node(Rule::dict_pair))
}

/// A value, after a separator or none.
#[verifier::allow_in_spec]
pub fn data_item() -> Expr
    returns
        then3(opt(Expr::Inline(Rule::SEPARATOR)), skip(), Expr::Node(Rule::data)),
{
    then3(opt(Expr::Inline(Rule::SEPARATOR)), skip(), Expr::Node(Rule::data))
}

/// An entry of a list scope, after a separator or none.
#[verifier::allow_in_spec]
pub fn list_item() -> Expr
    returns
        then3(opt(Expr::Inline(Rule::SEPARATOR)), skip(), Expr::Node(Rule::list_pair)),
{
    then3(opt(Expr::Inline(Rule::SEPARATOR)), skip(), Expr::Node(Rule::list_pair))
}

/// A character that is no line break.
#[verifier::allow_in_spec]
pub fn line_char() -> Expr
    returns
        then(not(newline()), Expr::Any),
{
    then(not(newline()), Expr::Any)
}

/// A character that a bare word may hold.
#[verifier::allow_in_spec]
pub fn bare_char() -> Expr
    returns
        then(
            not(or4(Expr::Inline(Rule::SEPARATOR), newline(), Expr::Char(']'), Expr::Char('}'))),
            Expr::Any,
        ),
{
    then(
        not(or4(Expr::Inline(Rule::SEPARATOR), newline(), Expr::Char(']'), Expr::Char('}'))),
        Expr::Any,
    )
}

/// A character inside quotes that `q` closes: an escaped one, or one that is not `q`.
#[verifier::allow_in_spec]
pub fn quoted_char(q: char) -> Expr
    returns
        or(then(Expr::Char('\\'), Expr::Any), then(not(Expr::Char(q)), Expr::Any)),
{
    or(then(Expr::Char('\\'), Expr::Any), then(not(Expr::Char(q)), Expr::Any))
}

/// A directive: its word, then a string and a symbol in brackets.
#[verifier::allow_in_spec]
pub fn directive(word: Expr) -> Expr
    returns
        then7(
            then5(word, skip(), Expr::Char('('), skip(), Expr::Node(Rule::StringNormal)),
            skip(),
            Expr::Char(','),
            skip(),
            Expr::Node(Rule::SYMBOL),
            skip(),
            Expr::Char(')'),
        ),
{
    then7(
        then5(word, skip(), Expr::Char('('), skip(), Expr::Node(Rule::StringNormal)),
        skip(),
        Expr::Char(','),
        skip(),
        Expr::Node(Rule::SYMBOL),
        skip(),
        Expr::Char(')'),
    )
}

/// The expression of each rule.
pub open spec fn grammar(r: Rule) -> Expr {
    match r {
        Rule::EOI => Expr::End,
        Rule::program => {
            then5(
                Expr::Start,
                skip(),
                opt(
                    then(
                        Expr::Inline(Rule::statement),
                        star(then(skip(), Expr::Inline(Rule::statement))),
                    ),
                ),
                skip(),
                Expr::Node(Rule::EOI),
            )
        },
        Rule::statement => {
            or6(
                Expr::Inline(Rule::SEPARATOR),
                then3(
                    Expr::Node(Rule::EmptyLine),
                    skip(),
                    opt(
                        then(
                            Expr::Node(Rule::EmptyLine),
                            star(then(skip(), Expr::Node(Rule::EmptyLine))),
                        ),
                    ),
                ),
                Expr::Node(Rule::dict_literal),
                Expr::Node(Rule::dict_scope),
                Expr::Node(Rule::dict_pair),
                Expr::Node(Rule::list_scope),
            )
        },
        Rule::EmptyLine => then(star(Expr::Inline(Rule::WHITESPACE)), newline()),
        Rule::RestOfLine => star(line_char()),
        Rule::include_statement => directive(Expr::Lit("@include")),
        Rule::import_statement => directive(Expr::Lit("@import")),
        Rule::dict_scope => {
            then3(
                Expr::Node(Rule::dict_head),
                skip(),
                opt(then(pair_item(), star(then(skip(), pair_item())))),
            )
        },
        Rule::dict_head => {
            then7(
                Expr::Char('{'),
                skip(),
                dots(),
                skip(),
                Expr::Node(Rule::namespace),
                skip(),
                Expr::Char('}'),
            )
        },
        Rule::dict_pair => {
            then5(
                Expr::Node(Rule::namespace),
                skip(),
                Expr::Inline(Rule::Assign),
                skip(),
                Expr::Node(Rule::data),
            )
        },
        Rule::list_scope => {
            then3(
                Expr::Node(Rule::list_head),
                skip(),
                opt(then(list_item(), star(then(skip(), list_item())))),
            )
        },
        Rule::list_head => {
            then7(
                Expr::Char('['),
                skip(),
                dots(),
                skip(),
                Expr::Node(Rule::namespace),
                skip(),
                Expr::Char(']'),
            )
        },
        Rule::list_pair => {
            or(
                then5(
                    Expr::Node(Rule::Insert),
                    skip(),
                    Expr::Node(Rule::dict_pair),
                    skip(),
                    opt(
                        then(
                            Expr::Node(Rule::dict_pair),
                            star(then(skip(), Expr::Node(Rule::dict_pair))),
                        ),
                    ),
                ),
                then5(
                    Expr::Node(Rule::Append),
                    skip(),
                    Expr::Node(Rule::data),
                    skip(),
                    opt(then(Expr::Node(Rule::data), star(then(skip(), Expr::Node(Rule::data))))),
                ),
            )
        },
        Rule::Insert => Expr::Char('*'),
        Rule::Append => Expr::Char('&'),
        Rule::dict_literal => {
            then3(
                Expr::Char('{'),
                skip(),
                or(
                    Expr::Char('}'),
                    then7(
                        pair_item(),
                        skip(),
                        opt(then(pair_item(), star(then(skip(), pair_item())))),
                        skip(),
                        opt(Expr::Inline(Rule::SEPARATOR)),
                        skip(),
                        Expr::Char('}'),
                    ),
                ),
            )
        },
        Rule::list_literal => {
            then3(
                Expr::Char('['),
                skip(),
                or(
                    Expr::Char(']'),
                    then7(
                        data_item(),
                        skip(),
                        opt(then(data_item(), star(then(skip(), data_item())))),
                        skip(),
                        opt(Expr::Inline(Rule::SEPARATOR)),
                        skip(),
                        Expr::Char(']'),
                    ),
                ),
            )
        },
        Rule::data => {
            or9(
                Expr::Node(Rule::Byte),
                Expr::Node(Rule::Number),
                Expr::Node(Rule::Special),
                Expr::Node(Rule::String),
                Expr::Node(Rule::cite_value),
                Expr::Node(Rule::dict_literal),
                Expr::Node(Rule::list_literal),
                Expr::Node(Rule::import_statement),
                Expr::Node(Rule::InlineString),
            )
        },
        Rule::Special => or3(Expr::Lit("true"), Expr::Lit("false"), Expr::Lit("null")),
        Rule::cite_value => then(Expr::Char('$'), Expr::Node(Rule::namespace)),
        Rule::Byte => {
            then(
                or3(
                    Expr::Node(Rule::Byte_BIN),
                    Expr::Node(Rule::Byte_OCT),
                    Expr::Node(Rule::Byte_HEX),
                ),
                opt(then(Expr::Char('_'), Expr::Node(Rule::SYMBOL))),
            )
        },
        Rule::Byte_BIN => {
            then4(
                Expr::Char('0'),
                or(Expr::Char('b'), Expr::Char('B')),
                Expr::Range('0', '1'),
                star(Expr::Range('0', '1')),
            )
        },
        Rule::Byte_OCT => {
            then4(
                Expr::Char('0'),
                or(Expr::Char('o'), Expr::Char('O')),
                Expr::Range('0', '7'),
                star(Expr::Range('0', '7')),
            )
        },
        Rule::Byte_HEX => {
            then4(
                Expr::Char('0'),
                or(Expr::Char('x'), Expr::Char('X')),
                hex_digit(),
                star(hex_digit()),
            )
        },
        Rule::Number => {
            then(
                or(Expr::Node(Rule::Exponent), Expr::Node(Rule::SignedNumber)),
                opt(Expr::Node(Rule::SYMBOL)),
            )
        },
        Rule::SignedNumber => {
            then(
                opt(Expr::Node(Rule::Sign)),
                or3(
                    Expr::Node(Rule::Decimal),
                    Expr::Node(Rule::DecimalBad),
                    Expr::Node(Rule::Integer),
                ),
            )
        },
        Rule::Decimal => then3(Expr::Node(Rule::Integer), Expr::Char('.'), digits()),
        Rule::DecimalBad => {
            or(then(Expr::Node(Rule::Integer), Expr::Char('.')), then(Expr::Char('.'), digits()))
        },
        Rule::Integer => or(Expr::Char('0'), then(Expr::Range('1', '9'), digits())),
        Rule::Exponent => {
            then5(
                Expr::Node(Rule::SignedNumber),
                or3(Expr::Char('e'), Expr::Char('E'), Expr::Lit("**")),
                opt(Expr::Node(Rule::Sign)),
                digit(),
                star(digit()),
            )
        },
        Rule::String => then(opt(Expr::Node(Rule::SYMBOL)), Expr::Node(Rule::StringNormal)),
        Rule::StringNormal => {
            or(
                then3(Expr::Char('"'), Expr::Node(Rule::StringQuotation), Expr::Char('"')),
                then3(Expr::Char('\''), Expr::Node(Rule::StringApostrophe), Expr::Char('\'')),
            )
        },
        Rule::StringApostrophe => star(quoted_char('\'')),
        Rule::StringQuotation => star(quoted_char('"')),
        Rule::InlineString => then(bare_char(), star(bare_char())),
        Rule::RestLineText => then(line_char(), star(line_char())),
        Rule::Apostrophe => Expr::Char('\''),
        Rule::Quotation => Expr::Char('"'),
        Rule::namespace => {
            then(Expr::Node(Rule::Key), star(then(Expr::Char('.'), Expr::Node(Rule::Key))))
        },
        Rule::Key => {
            or3(Expr::Node(Rule::StringNormal), Expr::Node(Rule::SYMBOL), Expr::Node(Rule::Integer))
        },
        Rule::SYMBOL => {
            then(
                or(Expr::Class(CharClass::XidStart), Expr::Char('_')),
                star(or(Expr::Class(CharClass::XidContinue), Expr::Char('_'))),
            )
        },
        Rule::ExtraID => Expr::Char('_'),
        Rule::COMMENT => or(Expr::Inline(Rule::MultiLineComment), Expr::Inline(Rule::LineComment)),
        Rule::WHITESPACE => {
            or3(newline(), Expr::Class(CharClass::SpaceSeparator), Expr::Char('\t'))
        },
        Rule::LineComment => then(Expr::Lit("//"), Expr::Inline(Rule::RestOfLine)),
        Rule::MultiLineComment => {
            then3(
                Expr::Lit("/*"),
                star(
                    or(Expr::Inline(Rule::MultiLineComment), then(not(Expr::Lit("*/")), Expr::Any)),
                ),
                Expr::Lit("*/"),
            )
        },
        Rule::Dot => Expr::Char('.'),
        Rule::Escape => Expr::Char('\\'),
        Rule::Underline => Expr::Char('_'),
        Rule::SEPARATOR => or(Expr::Char(','), Expr::Char(';')),
        Rule::Assign => or(Expr::Char('='), Expr::Char(':')),
        Rule::Sign => or(Expr::Char('+'), Expr::Char('-')),
    }
}

/// Builds the expression of rule `r`.
pub fn rule_expr(r: Rule) -> (e: Expr)
    ensures
        e == grammar(r),
{
    match r {
        Rule::EOI => Expr::End,
        Rule::program => {
            then5(
                Expr::Start,
                skip(),
                opt(
                    then(
                        Expr::Inline(Rule::statement),
                        star(then(skip(), Expr::Inline(Rule::statement))),
                    ),
                ),
                skip(),
                Expr::Node(Rule::EOI),
            )
        },
        Rule::statement => {
            or6(
                Expr::Inline(Rule::SEPARATOR),
                then3(
                    Expr::Node(Rule::EmptyLine),
                    skip(),
                    opt(
                        then(
                            Expr::Node(Rule::EmptyLine),
                            star(then(skip(), Expr::Node(Rule::EmptyLine))),
                        ),
                    ),
                ),
                Expr::Node(Rule::dict_literal),
                Expr::Node(Rule::dict_scope),
                Expr::Node(Rule::dict_pair),
                Expr::Node(Rule::list_scope),
            )
        },
        Rule::EmptyLine => then(star(Expr::Inline(Rule::WHITESPACE)), newline()),
        Rule::RestOfLine => star(line_char()),
        Rule::include_statement => directive(Expr::Lit("@include")),
        Rule::import_statement => directive(Expr::Lit("@import")),
        Rule::dict_scope => {
            then3(
                Expr::Node(Rule::dict_head),
                skip(),
                opt(then(pair_item(), star(then(skip(), pair_item())))),
            )
        },
        Rule::dict_head => {
            then7(
                Expr::Char('{'),
                skip(),
                dots(),
                skip(),
                Expr::Node(Rule::namespace),
                skip(),
                Expr::Char('}'),
            )
        },
        Rule::dict_pair => {
            then5(
                Expr::Node(Rule::namespace),
                skip(),
                Expr::Inline(Rule::Assign),
                skip(),
                Expr::Node(Rule::data),
            )
        },
        Rule::list_scope => {
            then3(
                Expr::Node(Rule::list_head),
                skip(),
                opt(then(list_item(), star(then(skip(), list_item())))),
            )
        },
        Rule::list_head => {
            then7(
                Expr::Char('['),
                skip(),
                dots(),
                skip(),
                Expr::Node(Rule::namespace),
                skip(),
                Expr::Char(']'),
            )
        },
        Rule::list_pair => {
            or(
                then5(
                    Expr::Node(Rule::Insert),
                    skip(),
                    Expr::Node(Rule::dict_pair),
                    skip(),
                    opt(
                        then(
                            Expr::Node(Rule::dict_pair),
                            star(then(skip(), Expr::Node(Rule::dict_pair))),
                        ),
                    ),
                ),
                then5(
                    Expr::Node(Rule::Append),
                    skip(),
                    Expr::Node(Rule::data),
                    skip(),
                    opt(then(Expr::Node(Rule::data), star(then(skip(), Expr::Node(Rule::data))))),
                ),
            )
        },
        Rule::Insert => Expr::Char('*'),
        Rule::Append => Expr::Char('&'),
        Rule::dict_literal => {
            then3(
                Expr::Char('{'),
                skip(),
                or(
                    Expr::Char('}'),
                    then7(
                        pair_item(),
                        skip(),
                        opt(then(pair_item(), star(then(skip(), pair_item())))),
                        skip(),
                        opt(Expr::Inline(Rule::SEPARATOR)),
                        skip(),
                        Expr::Char('}'),
                    ),
                ),
            )
        },
        Rule::list_literal => {
            then3(
                Expr::Char('['),
                skip(),
                or(
                    Expr::Char(']'),
                    then7(
                        data_item(),
                        skip(),
                        opt(then(data_item(), star(then(skip(), data_item())))),
                        skip(),
                        opt(Expr::Inline(Rule::SEPARATOR)),
                        skip(),
                        Expr::Char(']'),
                    ),
                ),
            )
        },
        Rule::data => {
            or9(
                Expr::Node(Rule::Byte),
                Expr::Node(Rule::Number),
                Expr::Node(Rule::Special),
                Expr::Node(Rule::String),
                Expr::Node(Rule::cite_value),
                Expr::Node(Rule::dict_literal),
                Expr::Node(Rule::list_literal),
                Expr::Node(Rule::import_statement),
                Expr::Node(Rule::InlineString),
            )
        },
        Rule::Special => or3(Expr::Lit("true"), Expr::Lit("false"), Expr::Lit("null")),
        Rule::cite_value => then(Expr::Char('$'), Expr::Node(Rule::namespace)),
        Rule::Byte => {
            then(
                or3(
                    Expr::Node(Rule::Byte_BIN),
                    Expr::Node(Rule::Byte_OCT),
                    Expr::Node(Rule::Byte_HEX),
                ),
                opt(then(Expr::Char('_'), Expr::Node(Rule::SYMBOL))),
            )
        },
        Rule::Byte_BIN => {
            then4(
                Expr::Char('0'),
                or(Expr::Char('b'), Expr::Char('B')),
                Expr::Range('0', '1'),
                star(Expr::Range('0', '1')),
            )
        },
        Rule::Byte_OCT => {
            then4(
                Expr::Char('0'),
                or(Expr::Char('o'), Expr::Char('O')),
                Expr::Range('0', '7'),
                star(Expr::Range('0', '7')),
            )
        },
        Rule::Byte_HEX => {
            then4(
                Expr::Char('0'),
                or(Expr::Char('x'), Expr::Char('X')),
                hex_digit(),
                star(hex_digit()),
            )
        },
        Rule::Number => {
            then(
                or(Expr::Node(Rule::Exponent), Expr::Node(Rule::SignedNumber)),
                opt(Expr::Node(Rule::SYMBOL)),
            )
        },
        Rule::SignedNumber => {
            then(
                opt(Expr::Node(Rule::Sign)),
                or3(
                    Expr::Node(Rule::Decimal),
                    Expr::Node(Rule::DecimalBad),
                    Expr::Node(Rule::Integer),
                ),
            )
        },
        Rule::Decimal => then3(Expr::Node(Rule::Integer), Expr::Char('.'), digits()),
        Rule::DecimalBad => {
            or(then(Expr::Node(Rule::Integer), Expr::Char('.')), then(Expr::Char('.'), digits()))
        },
        Rule::Integer => or(Expr::Char('0'), then(Expr::Range('1', '9'), digits())),
        Rule::Exponent => {
            then5(
                Expr::Node(Rule::SignedNumber),
                or3(Expr::Char('e'), Expr::Char('E'), Expr::Lit("**")),
                opt(Expr::Node(Rule::Sign)),
                digit(),
                star(digit()),
            )
        },
        Rule::String => then(opt(Expr::Node(Rule::SYMBOL)), Expr::Node(Rule::StringNormal)),
        Rule::StringNormal => {
            or(
                then3(Expr::Char('"'), Expr::Node(Rule::StringQuotation), Expr::Char('"')),
                then3(Expr::Char('\''), Expr::Node(Rule::StringApostrophe), Expr::Char('\'')),
            )
        },
        Rule::StringApostrophe => star(quoted_char('\'')),
        Rule::StringQuotation => star(quoted_char('"')),
        Rule::InlineString => then(bare_char(), star(bare_char())),
        Rule::RestLineText => then(line_char(), star(line_char())),
        Rule::Apostrophe => Expr::Char('\''),
        Rule::Quotation => Expr::Char('"'),
        Rule::namespace => {
            then(Expr::Node(Rule::Key), star(then(Expr::Char('.'), Expr::Node(Rule::Key))))
        },
        Rule::Key => {
            or3(Expr::Node(Rule::StringNormal), Expr::Node(Rule::SYMBOL), Expr::Node(Rule::Integer))
        },
        Rule::SYMBOL => {
            then(
                or(Expr::Class(CharClass::XidStart), Expr::Char('_')),
                star(or(Expr::Class(CharClass::XidContinue), Expr::Char('_'))),
            )
        },
        Rule::ExtraID => Expr::Char('_'),
        Rule::COMMENT => or(Expr::Inline(Rule::MultiLineComment), Expr::Inline(Rule::LineComment)),
        Rule::WHITESPACE => {
            or3(newline(), Expr::Class(CharClass::SpaceSeparator), Expr::Char('\t'))
        },
        Rule::LineComment => then(Expr::Lit("//"), Expr::Inline(Rule::RestOfLine)),
        Rule::MultiLineComment => {
            then3(
                Expr::Lit("/*"),
                star(
                    or(Expr::Inline(Rule::MultiLineComment), then(not(Expr::Lit("*/")), Expr::Any)),
                ),
                Expr::Lit("*/"),
            )
        },
        Rule::Dot => Expr::Char('.'),
        Rule::Escape => Expr::Char('\\'),
        Rule::Underline => Expr::Char('_'),
        Rule::SEPARATOR => or(Expr::Char(','), Expr::Char(';')),
        Rule::Assign => or(Expr::Char('='), Expr::Char(':')),
        Rule::Sign => or(Expr::Char('+'), Expr::Char('-')),
    }
}

} // verus!
