//! From the nodes of the lexical layer to values: numbers, strings, keys,
//! paths and the three special words.

use vstd::prelude::*;
use crate::chars::to_text;
use crate::literal::{
    count_digits, digit_count, radix_fold, radix_fold_grows, read_escaped, read_radix, unescape,
};
use crate::number::{Decimal, Number};
use crate::peg::{Pair, Tree};
use crate::rule::Rule;
use crate::value::{KeyNode, KeyPath, PathStep, Val, Value};

verus! {

/// What can be wrong with a literal.
#[derive(Clone, Copy, Debug, PartialEq, Eq, Structural)]
pub enum Fault {
    /// A number does not fit: an integer or a coefficient in 64 bits, an
    /// exponent in 32 bits, an index in the machine's word.
    Overflow,
    /// The node does not have the shape that the grammar gives its rule.
    Malformed,
}

/// A literal could not be turned into a value. `start` and `end` are the span
/// of the node at fault.
#[derive(Clone, Copy, Debug, PartialEq, Eq, Structural)]
pub struct LiteralError {
    pub kind: Fault,
    pub start: usize,
    pub end: usize,
}

/// The sign, the digits and the exponent of a number literal.
#[derive(Clone, Copy, Debug, PartialEq, Eq, Structural)]
pub struct Parts {
    pub negative: bool,
    pub magnitude: u64,
    pub exponent: i32,
    /// Whether the literal has a point or an exponent.
    pub float: bool,
}

/// The error of kind `kind` at node `t`.
pub open spec fn fault(kind: Fault, t: Tree) -> LiteralError {
    LiteralError { kind, start: t.start, end: t.end }
}

/// Whether the span of `t` lies in the text.
pub open spec fn in_text(t: Tree, s: Seq<char>) -> bool {
    t.start <= t.end <= s.len()
}

/// The characters that `t` spans.
pub open spec fn span(t: Tree, s: Seq<char>) -> Seq<char> {
    s.subrange(t.start as int, t.end as int)
}

/// Whether an exec result stands for a spec result.
pub open spec fn agrees(r: Result<Value, LiteralError>, m: Result<Val, LiteralError>) -> bool {
    match r {
        Ok(v) => m == Ok::<Val, LiteralError>(v@),
        Err(e) => m == Err::<Val, LiteralError>(e),
    }
}

/// The number of children of a node.
pub fn arity(p: &Pair) -> (n: usize)
    ensures
        n == p@.children.len(),
{
    p.children.len()
}

/// Child `i` of a node.
pub fn child(p: &Pair, i: usize) -> (c: &Pair)
    requires
        i < p@.children.len(),
    ensures
        c@ == p@.children[i as int],
        decreases_to!(*p => *c),
{
    &p.children[i]
}

/// The error of kind `kind` at node `p`.
fn error_at(kind: Fault, p: &Pair) -> (e: LiteralError)
    ensures
        e == fault(kind, p@),
{
    LiteralError { kind, start: p.start, end: p.end }
}

/// Whether the span of `p` lies in the text.
fn within(p: &Pair, input: &Vec<char>) -> (b: bool)
    ensures
        b == in_text(p@, input@),
{
    p.start <= p.end && p.end <= input.len()
}

/// The characters that `p` spans.
fn text_of_span(p: &Pair, input: &Vec<char>) -> (s: String)
    requires
        in_text(p@, input@),
    ensures
        s@ == span(p@, input@),
{
    to_text(input, p.start, p.end)
}

/// The value of an `Integer` node: its digits in base ten.
pub open spec fn integer_value(t: Tree, s: Seq<char>) -> Result<u64, LiteralError> {
    if !in_text(t, s) {
        Err(fault(Fault::Malformed, t))
    } else if radix_fold(0, span(t, s), 10) > u64::MAX {
        Err(fault(Fault::Overflow, t))
    } else {
        Ok(radix_fold(0, span(t, s), 10) as u64)
    }
}

/// Reads an `Integer` node.
pub fn read_integer(p: &Pair, input: &Vec<char>) -> (r: Result<u64, LiteralError>)
    ensures
        r == integer_value(p@, input@),
{
    if !within(p, input) {
        return Err(error_at(Fault::Malformed, p));
    }
    match read_radix(input, p.start, p.end, 10, 0) {
        Some(v) => Ok(v),
        None => Err(error_at(Fault::Overflow, p)),
    }
}

/// Where the point of a `Decimal` or `DecimalBad` node stands: behind its
/// `Integer` node, or at its start where it has none.
pub open spec fn point_of(t: Tree) -> int {
    if t.children.len() == 1 {
        t.children[0].end as int
    } else {
        t.start as int
    }
}

/// The coefficient and the exponent of a `Decimal` or `DecimalBad` node: the
/// digits before and behind the point read as one number, and minus the
/// number of digits behind the point. A missing half counts as zero.
pub open spec fn decimal_parts(t: Tree, s: Seq<char>) -> Result<(u64, i32), LiteralError> {
    if !in_text(t, s) || t.children.len() > 1 || !(t.start <= point_of(t) < t.end) {
        Err(fault(Fault::Malformed, t))
    } else {
        let whole = s.subrange(t.start as int, point_of(t));
        let places = s.subrange(point_of(t) + 1, t.end as int);
        let c = radix_fold(radix_fold(0, whole, 10), places, 10);
        if c > u64::MAX || digit_count(places) > i32::MAX {
            Err(fault(Fault::Overflow, t))
        } else {
            Ok((c as u64, (-(digit_count(places) as int)) as i32))
        }
    }
}

/// Reads a `Decimal` or `DecimalBad` node.
pub fn read_decimal(p: &Pair, input: &Vec<char>) -> (r: Result<(u64, i32), LiteralError>)
    ensures
        r == decimal_parts(p@, input@),
{
    if !within(p, input) || arity(p) > 1 {
        return Err(error_at(Fault::Malformed, p));
    }
    let point: usize = if arity(p) == 1 {
        child(p, 0).end
    } else {
        p.start
    };
    if !(p.start <= point && point < p.end) {
        return Err(error_at(Fault::Malformed, p));
    }
    let ghost whole = input@.subrange(p.start as int, point as int);
    let ghost places = input@.subrange(point + 1, p.end as int);
    let first = match read_radix(input, p.start, point, 10, 0) {
        Some(v) => v,
        None => {
            proof {
                radix_fold_grows(radix_fold(0, whole, 10), places, 10);
            }
            return Err(error_at(Fault::Overflow, p));
        },
    };
    let c = match read_radix(input, point + 1, p.end, 10, first) {
        Some(v) => v,
        None => {
            return Err(error_at(Fault::Overflow, p));
        },
    };
    let n: usize = count_digits(input, point + 1, p.end);
    if n > i32::MAX as usize {
        return Err(error_at(Fault::Overflow, p));
    }
    Ok((c, -(n as i32)))
}

/// Whether child `i` of `t` is a `Sign` node that spans a character.
pub open spec fn sign_at(t: Tree, i: int, s: Seq<char>) -> bool {
    t.children[i].rule == Rule::Sign && in_text(t.children[i], s) && t.children[i].start
        < t.children[i].end
}

/// The parts of a `SignedNumber` node.
pub open spec fn signed_parts(t: Tree, s: Seq<char>) -> Result<Parts, LiteralError> {
    let n = t.children.len();
    if n == 0 || n > 2 || (n == 2 && !sign_at(t, 0, s)) {
        Err(fault(Fault::Malformed, t))
    } else {
        let negative = n == 2 && s[t.children[0].start as int] == '-';
        let body = t.children[n - 1];
        match body.rule {
            Rule::Integer => match integer_value(body, s) {
                Ok(m) => Ok(Parts { negative, magnitude: m, exponent: 0, float: false }),
                Err(e) => Err(e),
            },
            Rule::Decimal | Rule::DecimalBad => match decimal_parts(body, s) {
                Ok((c, e)) => Ok(Parts { negative, magnitude: c, exponent: e, float: true }),
                Err(e) => Err(e),
            },
            _ => Err(fault(Fault::Malformed, t)),
        }
    }
}

/// Whether child `i` of `p` is a `Sign` node that spans a character.
fn is_sign(p: &Pair, i: usize, input: &Vec<char>) -> (b: bool)
    requires
        i < p@.children.len(),
    ensures
        b == sign_at(p@, i as int, input@),
{
    let c = child(p, i);
    c.rule == Rule::Sign && within(c, input) && c.start < c.end
}

/// Reads a `SignedNumber` node.
pub fn read_signed(p: &Pair, input: &Vec<char>) -> (r: Result<Parts, LiteralError>)
    ensures
        r == signed_parts(p@, input@),
{
    let n: usize = arity(p);
    if n == 0 || n > 2 || (n == 2 && !is_sign(p, 0, input)) {
        return Err(error_at(Fault::Malformed, p));
    }
    let negative: bool = n == 2 && input[child(p, 0).start] == '-';
    let body = child(p, n - 1);
    match body.rule {
        Rule::Integer => match read_integer(body, input) {
            Ok(m) => Ok(Parts { negative, magnitude: m, exponent: 0, float: false }),
            Err(e) => Err(e),
        },
        Rule::Decimal | Rule::DecimalBad => match read_decimal(body, input) {
            Ok((c, e)) => Ok(Parts { negative, magnitude: c, exponent: e, float: true }),
            Err(e) => Err(e),
        },
        _ => Err(error_at(Fault::Malformed, p)),
    }
}

/// Where the digits of the exponent of an `Exponent` node start: behind its
/// sign, or else behind the mark (`e`, `E` or `**`) that follows the number.
pub open spec fn exponent_start(t: Tree, s: Seq<char>) -> int {
    if t.children.len() == 2 {
        t.children[1].end as int
    } else if s[t.children[0].end as int] == '*' {
        t.children[0].end + 2
    } else {
        t.children[0].end + 1
    }
}

/// The parts of an `Exponent` node: those of its number, with the exponent
/// that is written behind the mark added to the number's own.
pub open spec fn exponent_parts(t: Tree, s: Seq<char>) -> Result<Parts, LiteralError> {
    let n = t.children.len();
    if n == 0 || n > 2 || t.children[0].rule != Rule::SignedNumber || (n == 2 && !sign_at(t, 1, s))
        || !in_text(t, s) || t.children[0].end >= t.end || exponent_start(t, s) > t.end {
        Err(fault(Fault::Malformed, t))
    } else {
        match signed_parts(t.children[0], s) {
            Err(e) => Err(e),
            Ok(base) => {
                let written = radix_fold(0, s.subrange(exponent_start(t, s), t.end as int), 10);
                let shift = if n == 2 && s[t.children[1].start as int] == '-' {
                    -(written as int)
                } else {
                    written as int
                };
                if written > i32::MAX || base.exponent + shift < i32::MIN || base.exponent + shift
                    > i32::MAX {
                    Err(fault(Fault::Overflow, t))
                } else {
                    Ok(
                        Parts {
                            negative: base.negative,
                            magnitude: base.magnitude,
                            exponent: (base.exponent + shift) as i32,
                            float: true,
                        },
                    )
                }
            },
        }
    }
}

/// Reads an `Exponent` node.
pub fn read_exponent(p: &Pair, input: &Vec<char>) -> (r: Result<Parts, LiteralError>)
    ensures
        r == exponent_parts(p@, input@),
{
    let n: usize = arity(p);
    if n == 0 || n > 2 || child(p, 0).rule != Rule::SignedNumber || (n == 2 && !is_sign(
        p,
        1,
        input,
    )) || !within(p, input) || child(p, 0).end >= p.end {
        return Err(error_at(Fault::Malformed, p));
    }
    let after: usize = child(p, 0).end;
    let from: usize = if n == 2 {
        child(p, 1).end
    } else if input[after] == '*' {
        if after > usize::MAX - 2 {
            return Err(error_at(Fault::Malformed, p));
        }
        after + 2
    } else {
        after + 1
    };
    if from > p.end {
        return Err(error_at(Fault::Malformed, p));
    }
    let base = match read_signed(child(p, 0), input) {
        Ok(b) => b,
        Err(e) => {
            return Err(e);
        },
    };
    let written: u64 = match read_radix(input, from, p.end, 10, 0) {
        Some(v) => v,
        None => {
            return Err(error_at(Fault::Overflow, p));
        },
    };
    if written > i32::MAX as u64 {
        return Err(error_at(Fault::Overflow, p));
    }
    let shift: i64 = if n == 2 && input[child(p, 1).start] == '-' {
        -(written as i64)
    } else {
        written as i64
    };
    let total: i64 = base.exponent as i64 + shift;
    if total < i32::MIN as i64 || total > i32::MAX as i64 {
        return Err(error_at(Fault::Overflow, p));
    }
    Ok(
        Parts {
            negative: base.negative,
            magnitude: base.magnitude,
            exponent: total as i32,
            float: true,
        },
    )
}

/// The number that the parts of a literal at node `t` make: a floating value
/// where the literal has a point or an exponent, else an integer, negative
/// where it has a minus sign and is not zero.
pub open spec fn number_from(parts: Parts, t: Tree) -> Result<Number, LiteralError> {
    if parts.float {
        Ok(
            Number::Float(
                Decimal {
                    negative: parts.negative,
                    coefficient: parts.magnitude,
                    exponent: parts.exponent,
                },
            ),
        )
    } else if parts.negative && parts.magnitude > 0 {
        if parts.magnitude > 0x8000_0000_0000_0000 {
            Err(fault(Fault::Overflow, t))
        } else {
            Ok(Number::NegInt((-(parts.magnitude as int)) as i64))
        }
    } else {
        Ok(Number::PosInt(parts.magnitude))
    }
}

/// Makes the number of the parts of a literal.
pub fn make_number(parts: Parts, p: &Pair) -> (r: Result<Number, LiteralError>)
    ensures
        r == number_from(parts, p@),
{
    if parts.float {
        Ok(
            Number::Float(
                Decimal {
                    negative: parts.negative,
                    coefficient: parts.magnitude,
                    exponent: parts.exponent,
                },
            ),
        )
    } else if parts.negative && parts.magnitude > 0 {
        if parts.magnitude > 0x8000_0000_0000_0000 {
            Err(error_at(Fault::Overflow, p))
        } else if parts.magnitude == 0x8000_0000_0000_0000 {
            Ok(Number::NegInt(i64::MIN))
        } else {
            Ok(Number::NegInt(-(parts.magnitude as i64)))
        }
    } else {
        Ok(Number::PosInt(parts.magnitude))
    }
}

/// Whether `t` has one child, or two of which the one at `tag` is a `SYMBOL`
/// node in the text.
pub open spec fn tag_shape(t: Tree, tag: int, s: Seq<char>) -> bool {
    let n = t.children.len();
    n == 1 || (n == 2 && t.children[tag].rule == Rule::SYMBOL && in_text(t.children[tag], s))
}

/// Whether `p` has one child, or two of which the one at `tag` is a
/// `SYMBOL` node in the text.
fn has_tag_shape(p: &Pair, tag: usize, input: &Vec<char>) -> (b: bool)
    requires
        tag < 2,
    ensures
        b == tag_shape(p@, tag as int, input@),
{
    let n: usize = arity(p);
    n == 1 || (n == 2 && child(p, tag).rule == Rule::SYMBOL && within(child(p, tag), input))
}

/// The number `n` as a value: with the tag behind the literal where `t` has
/// one, plain where it has none.
pub open spec fn tagged_number(t: Tree, s: Seq<char>, n: Number) -> Val {
    if t.children.len() == 2 {
        Val::HandlerNumber(span(t.children[1], s), n)
    } else {
        Val::Number(n)
    }
}

/// The number `n` as a value, with the tag of `p` where it has one.
fn tag_number(p: &Pair, input: &Vec<char>, n: Number) -> (v: Value)
    requires
        tag_shape(p@, 1, input@),
    ensures
        v@ == tagged_number(p@, input@, n),
{
    if arity(p) == 2 {
        Value::HandlerNumber(text_of_span(child(p, 1), input), n)
    } else {
        Value::Number(n)
    }
}

/// The value of a `Number` node.
pub open spec fn number_value(t: Tree, s: Seq<char>) -> Result<Val, LiteralError> {
    if !tag_shape(t, 1, s) {
        Err(fault(Fault::Malformed, t))
    } else {
        let parts = match t.children[0].rule {
            Rule::Exponent => exponent_parts(t.children[0], s),
            Rule::SignedNumber => signed_parts(t.children[0], s),
            _ => Err(fault(Fault::Malformed, t)),
        };
        match parts {
            Err(e) => Err(e),
            Ok(p) => match number_from(p, t.children[0]) {
                Err(e) => Err(e),
                Ok(n) => Ok(tagged_number(t, s, n)),
            },
        }
    }
}

/// Reads a `Number` node.
pub fn read_number(p: &Pair, input: &Vec<char>) -> (r: Result<Value, LiteralError>)
    ensures
        agrees(r, number_value(p@, input@)),
{
    if !has_tag_shape(p, 1, input) {
        return Err(error_at(Fault::Malformed, p));
    }
    let body = child(p, 0);
    let parts = match body.rule {
        Rule::Exponent => read_exponent(body, input),
        Rule::SignedNumber => read_signed(body, input),
        _ => Err(error_at(Fault::Malformed, p)),
    };
    match parts {
        Err(e) => Err(e),
        Ok(parts) => match make_number(parts, body) {
            Err(e) => Err(e),
            Ok(n) => Ok(tag_number(p, input, n)),
        },
    }
}

/// The base of the digits of a byte literal, or zero for another rule.
pub open spec fn base_of(r: Rule) -> nat {
    match r {
        Rule::Byte_BIN => 2,
        Rule::Byte_OCT => 8,
        Rule::Byte_HEX => 16,
        _ => 0,
    }
}

/// The value of a `Byte` node: the digits behind the two characters that
/// name the base, read in that base.
pub open spec fn byte_value(t: Tree, s: Seq<char>) -> Result<Val, LiteralError> {
    if !tag_shape(t, 1, s) || base_of(t.children[0].rule) == 0 || !in_text(t.children[0], s)
        || t.children[0].end - t.children[0].start < 2 {
        Err(fault(Fault::Malformed, t))
    } else {
        let b = t.children[0];
        let v = radix_fold(0, s.subrange(b.start + 2, b.end as int), base_of(b.rule));
        if v > u64::MAX {
            Err(fault(Fault::Overflow, b))
        } else {
            Ok(tagged_number(t, s, Number::PosInt(v as u64)))
        }
    }
}

/// Reads a `Byte` node.
pub fn read_byte(p: &Pair, input: &Vec<char>) -> (r: Result<Value, LiteralError>)
    ensures
        agrees(r, byte_value(p@, input@)),
{
    if !has_tag_shape(p, 1, input) {
        return Err(error_at(Fault::Malformed, p));
    }
    let b = child(p, 0);
    let base: u64 = match b.rule {
        Rule::Byte_BIN => 2,
        Rule::Byte_OCT => 8,
        Rule::Byte_HEX => 16,
        _ => 0,
    };
    if base == 0 || !within(b, input) || b.end - b.start < 2 {
        return Err(error_at(Fault::Malformed, p));
    }
    match read_radix(input, b.start + 2, b.end, base, 0) {
        Some(v) => Ok(tag_number(p, input, Number::PosInt(v))),
        None => Err(error_at(Fault::Overflow, b)),
    }
}

/// The text of a `StringNormal` node: the characters between the quotes,
/// with the escapes resolved.
pub open spec fn quoted_text(t: Tree, s: Seq<char>) -> Result<Seq<char>, LiteralError> {
    if t.children.len() != 1 || !(t.children[0].rule == Rule::StringQuotation
        || t.children[0].rule == Rule::StringApostrophe) || !in_text(t.children[0], s) {
        Err(fault(Fault::Malformed, t))
    } else {
        Ok(unescape(span(t.children[0], s)))
    }
}

/// Reads a `StringNormal` node.
pub fn read_quoted(p: &Pair, input: &Vec<char>) -> (r: Result<String, LiteralError>)
    ensures
        match r {
            Ok(text) => quoted_text(p@, input@) == Ok::<Seq<char>, LiteralError>(text@),
            Err(e) => quoted_text(p@, input@) == Err::<Seq<char>, LiteralError>(e),
        },
{
    if arity(p) != 1 {
        return Err(error_at(Fault::Malformed, p));
    }
    let body = child(p, 0);
    if !(body.rule == Rule::StringQuotation || body.rule == Rule::StringApostrophe) || !within(
        body,
        input,
    ) {
        return Err(error_at(Fault::Malformed, p));
    }
    Ok(read_escaped(input, body.start, body.end))
}

/// The value of a `String` node: a string, or a string with the tag that
/// stands before it.
pub open spec fn string_value(t: Tree, s: Seq<char>) -> Result<Val, LiteralError> {
    let n = t.children.len();
    if !tag_shape(t, 0, s) || t.children[n - 1].rule != Rule::StringNormal {
        Err(fault(Fault::Malformed, t))
    } else {
        match quoted_text(t.children[n - 1], s) {
            Err(e) => Err(e),
            Ok(text) => if n == 2 {
                Ok(Val::HandlerString(span(t.children[0], s), text))
            } else {
                Ok(Val::String(text))
            },
        }
    }
}

/// Reads a `String` node.
pub fn read_string(p: &Pair, input: &Vec<char>) -> (r: Result<Value, LiteralError>)
    ensures
        agrees(r, string_value(p@, input@)),
{
    if !has_tag_shape(p, 0, input) {
        return Err(error_at(Fault::Malformed, p));
    }
    let n: usize = arity(p);
    let body = child(p, n - 1);
    if body.rule != Rule::StringNormal {
        return Err(error_at(Fault::Malformed, p));
    }
    match read_quoted(body, input) {
        Err(e) => Err(e),
        Ok(text) => if n == 2 {
            Ok(Value::HandlerString(text_of_span(child(p, 0), input), text))
        } else {
            Ok(Value::String(text))
        },
    }
}

/// The step that a `Key` node names: a quoted or bare word is a key, a
/// number is an index.
pub open spec fn key_step(t: Tree, s: Seq<char>) -> Result<PathStep, LiteralError> {
    if t.children.len() != 1 {
        Err(fault(Fault::Malformed, t))
    } else {
        let c = t.children[0];
        match c.rule {
            Rule::StringNormal => match quoted_text(c, s) {
                Ok(text) => Ok(PathStep::Key(text)),
                Err(e) => Err(e),
            },
            Rule::SYMBOL => if in_text(c, s) {
                Ok(PathStep::Key(span(c, s)))
            } else {
                Err(fault(Fault::Malformed, c))
            },
            Rule::Integer => match integer_value(c, s) {
                Ok(v) => if v > isize::MAX {
                    Err(fault(Fault::Overflow, c))
                } else {
                    Ok(PathStep::Index(v as isize))
                },
                Err(e) => Err(e),
            },
            _ => Err(fault(Fault::Malformed, t)),
        }
    }
}

/// Reads a `Key` node.
pub fn read_key(p: &Pair, input: &Vec<char>) -> (r: Result<KeyNode, LiteralError>)
    ensures
        match r {
            Ok(k) => key_step(p@, input@) == Ok::<PathStep, LiteralError>(k@),
            Err(e) => key_step(p@, input@) == Err::<PathStep, LiteralError>(e),
        },
{
    if arity(p) != 1 {
        return Err(error_at(Fault::Malformed, p));
    }
    let c = child(p, 0);
    match c.rule {
        Rule::StringNormal => match read_quoted(c, input) {
            Ok(text) => Ok(KeyNode::Key(text)),
            Err(e) => Err(e),
        },
        Rule::SYMBOL => if within(c, input) {
            Ok(KeyNode::Key(text_of_span(c, input)))
        } else {
            Err(error_at(Fault::Malformed, c))
        },
        Rule::Integer => match read_integer(c, input) {
            Ok(v) => if v > isize::MAX as u64 {
                Err(error_at(Fault::Overflow, c))
            } else {
                Ok(KeyNode::Index(v as isize))
            },
            Err(e) => Err(e),
        },
        _ => Err(error_at(Fault::Malformed, p)),
    }
}

/// The steps that the first `n` children of a `namespace` node name.
pub open spec fn path_steps(t: Tree, s: Seq<char>, n: nat) -> Result<Seq<PathStep>, LiteralError>
    decreases n,
{
    if n == 0 || n > t.children.len() {
        Ok(Seq::empty())
    } else {
        match path_steps(t, s, (n - 1) as nat) {
            Err(e) => Err(e),
            Ok(steps) => if t.children[n - 1].rule != Rule::Key {
                Err(fault(Fault::Malformed, t.children[n - 1]))
            } else {
                match key_step(t.children[n - 1], s) {
                    Err(e) => Err(e),
                    Ok(k) => Ok(steps.push(k)),
                }
            },
        }
    }
}

/// The path that a `namespace` node names. It has at least one step.
pub open spec fn path_of(t: Tree, s: Seq<char>) -> Result<Seq<PathStep>, LiteralError> {
    if t.children.len() == 0 {
        Err(fault(Fault::Malformed, t))
    } else {
        path_steps(t, s, t.children.len())
    }
}

/// Reads a `namespace` node.
pub fn read_path(p: &Pair, input: &Vec<char>) -> (r: Result<Vec<KeyNode>, LiteralError>)
    ensures
        match r {
            Ok(path) => path_of(p@, input@) == Ok::<Seq<PathStep>, LiteralError>(KeyPath(path)@)
                && path@.len() > 0,
            Err(e) => path_of(p@, input@) == Err::<Seq<PathStep>, LiteralError>(e),
        },
{
    let n: usize = arity(p);
    if n == 0 {
        return Err(error_at(Fault::Malformed, p));
    }
    let mut path: Vec<KeyNode> = Vec::new();
    let mut i: usize = 0;
    assert(KeyPath(path)@ =~= Seq::<PathStep>::empty());
    while i < n
        invariant
            i <= n == p@.children.len(),
            path@.len() == i,
            path_steps(p@, input@, i as nat) == Ok::<Seq<PathStep>, LiteralError>(KeyPath(path)@),
        decreases n - i,
    {
        let c = child(p, i);
        if c.rule != Rule::Key {
            proof {
                path_failure(p@, input@, (i + 1) as nat, n as nat);
            }
            return Err(error_at(Fault::Malformed, c));
        }
        match read_key(c, input) {
            Err(e) => {
                proof {
                    path_failure(p@, input@, (i + 1) as nat, n as nat);
                }
                return Err(e);
            },
            Ok(k) => {
                let ghost before = KeyPath(path)@;
                path.push(k);
                assert(KeyPath(path)@ =~= before.push(k@));
            },
        }
        i += 1;
    }
    Ok(path)
}

/// A failure among the first `n` steps is the failure of every longer
/// prefix.
proof fn path_failure(t: Tree, s: Seq<char>, n: nat, m: nat)
    requires
        n <= m <= t.children.len(),
        path_steps(t, s, n) is Err,
    ensures
        path_steps(t, s, m) == path_steps(t, s, n),
    decreases m,
{
    if n < m {
        path_failure(t, s, n, (m - 1) as nat);
    }
}

/// The value of a `cite_value` node: the path behind the `$`.
pub open spec fn cite_value(t: Tree, s: Seq<char>) -> Result<Val, LiteralError> {
    if t.children.len() != 1 || t.children[0].rule != Rule::namespace {
        Err(fault(Fault::Malformed, t))
    } else {
        match path_of(t.children[0], s) {
            Err(e) => Err(e),
            Ok(steps) => Ok(Val::Cite(steps)),
        }
    }
}

/// Reads a `cite_value` node.
pub fn read_cite(p: &Pair, input: &Vec<char>) -> (r: Result<Value, LiteralError>)
    ensures
        agrees(r, cite_value(p@, input@)),
{
    if arity(p) != 1 || child(p, 0).rule != Rule::namespace {
        return Err(error_at(Fault::Malformed, p));
    }
    match read_path(child(p, 0), input) {
        Err(e) => Err(e),
        Ok(path) => Ok(Value::Cite(KeyPath(path))),
    }
}

/// The value of a `Special` node: `true`, `false` or `null`, told apart by
/// the first letter.
pub open spec fn special_value(t: Tree, s: Seq<char>) -> Result<Val, LiteralError> {
    if !in_text(t, s) || t.start >= t.end {
        Err(fault(Fault::Malformed, t))
    } else if s[t.start as int] == 't' {
        Ok(Val::Boolean(true))
    } else if s[t.start as int] == 'f' {
        Ok(Val::Boolean(false))
    } else {
        Ok(Val::Null)
    }
}

/// Reads a `Special` node.
pub fn read_special(p: &Pair, input: &Vec<char>) -> (r: Result<Value, LiteralError>)
    ensures
        agrees(r, special_value(p@, input@)),
{
    if !within(p, input) || p.start >= p.end {
        return Err(error_at(Fault::Malformed, p));
    }
    let c = input[p.start];
    if c == 't' {
        Ok(Value::Boolean(true))
    } else if c == 'f' {
        Ok(Value::Boolean(false))
    } else {
        Ok(Value::Null)
    }
}

/// The value of an `InlineString` node: its characters as they are.
pub open spec fn inline_value(t: Tree, s: Seq<char>) -> Result<Val, LiteralError> {
    if !in_text(t, s) {
        Err(fault(Fault::Malformed, t))
    } else {
        Ok(Val::String(span(t, s)))
    }
}

/// Reads an `InlineString` node.
pub fn read_inline(p: &Pair, input: &Vec<char>) -> (r: Result<Value, LiteralError>)
    ensures
        agrees(r, inline_value(p@, input@)),
{
    if !within(p, input) {
        return Err(error_at(Fault::Malformed, p));
    }
    Ok(Value::String(text_of_span(p, input)))
}

/// The value of an `import_statement` node: a record named `import` that
/// holds the path with the symbol as its tag. Nothing is loaded.
pub open spec fn import_value(t: Tree, s: Seq<char>) -> Result<Val, LiteralError> {
    if t.children.len() != 2 || t.children[0].rule != Rule::StringNormal || t.children[1].rule
        != Rule::SYMBOL || !in_text(t.children[1], s) {
        Err(fault(Fault::Malformed, t))
    } else {
        match quoted_text(t.children[0], s) {
            Err(e) => Err(e),
            Ok(path) => Ok(
                Val::Record(
                    "import"@,
                    Box::new(Val::HandlerString(span(t.children[1], s), path)),
                ),
            ),
        }
    }
}

/// Reads an `import_statement` node.
pub fn read_import(p: &Pair, input: &Vec<char>) -> (r: Result<Value, LiteralError>)
    ensures
        agrees(r, import_value(p@, input@)),
{
    if arity(p) != 2 || child(p, 0).rule != Rule::StringNormal || child(p, 1).rule != Rule::SYMBOL
        || !within(child(p, 1), input) {
        return Err(error_at(Fault::Malformed, p));
    }
    match read_quoted(child(p, 0), input) {
        Err(e) => Err(e),
        Ok(path) => {
            let tag = text_of_span(child(p, 1), input);
            let inner = Value::HandlerString(tag, path);
            assert(inner@ == Val::HandlerString(tag@, path@));
            Ok(Value::Record("import".to_owned(), Box::new(inner)))
        },
    }
}

} // verus!
