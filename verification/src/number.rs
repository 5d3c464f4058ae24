//! Numbers: non-negative integers, negative integers and finite decimal
//! floating values, with their canonical text.

use vstd::prelude::*;

verus! {

/// A finite floating value in base ten: `coefficient` times ten to the power
/// `exponent`, negated where `negative` is set. There is no infinity and no
/// not-a-number among these.
#[derive(Clone, Copy, Debug, PartialEq, Eq, Structural)]
pub struct Decimal {
    pub negative: bool,
    pub coefficient: u64,
    pub exponent: i32,
}

/// A number of one of three kinds.
#[derive(Clone, Copy, Debug, PartialEq, Eq, Structural)]
pub enum Number {
    /// An integer that is zero or more.
    PosInt(u64),
    /// An integer below zero.
    NegInt(i64),
    /// A finite floating value.
    Float(Decimal),
}

/// The character of a digit below ten.
pub open spec fn digit_char(d: nat) -> char {
    if d == 0 {
        '0'
    } else if d == 1 {
        '1'
    } else if d == 2 {
        '2'
    } else if d == 3 {
        '3'
    } else if d == 4 {
        '4'
    } else if d == 5 {
        '5'
    } else if d == 6 {
        '6'
    } else if d == 7 {
        '7'
    } else if d == 8 {
        '8'
    } else {
        '9'
    }
}

/// The decimal digits of `n`, the most significant first, without leading
/// zeros; `0` is one digit.
pub open spec fn digits(n: nat) -> Seq<char>
    decreases n,
{
    if n < 10 {
        seq![digit_char(n)]
    } else {
        digits(n / 10).push(digit_char(n % 10))
    }
}

/// The decimal text of an integer: a `-` before the digits of a negative one.
pub open spec fn int_text(i: int) -> Seq<char> {
    if i < 0 {
        seq!['-'] + digits((-i) as nat)
    } else {
        digits(i as nat)
    }
}

/// `n` zeros.
pub open spec fn zeros(n: nat) -> Seq<char> {
    Seq::new(n, |i: int| '0')
}

/// The longest fraction that is written out digit by digit. A value with more
/// places after the point is written with an exponent.
pub const MAX_PLACES: i32 = 20;

/// The text of a floating value, without its sign.
///
/// With an exponent of zero or more, or below `-MAX_PLACES`: the digits of
/// the coefficient, `e`, the exponent. Otherwise the digits of the
/// coefficient with a point before the last `-exponent` of them, zeros being
/// put in front so that at least one digit stands before the point.
pub open spec fn magnitude_text(coefficient: u64, exponent: i32) -> Seq<char> {
    let ds = digits(coefficient as nat);
    if exponent >= 0 || exponent < -MAX_PLACES {
        ds + seq!['e'] + int_text(exponent as int)
    } else {
        positional(ds, -exponent)
    }
}

/// The digits `ds` with a point before the last `k` of them, zeros being put
/// in front so that at least one digit stands before the point.
pub open spec fn positional(ds: Seq<char>, k: int) -> Seq<char> {
    if ds.len() > k {
        ds.subrange(0, ds.len() - k) + seq!['.'] + ds.subrange(ds.len() - k, ds.len() as int)
    } else {
        seq!['0', '.'] + zeros((k - ds.len()) as nat) + ds
    }
}

/// The canonical text of a number.
pub open spec fn number_text(n: Number) -> Seq<char> {
    match n {
        Number::PosInt(u) => digits(u as nat),
        Number::NegInt(i) => int_text(i as int),
        Number::Float(d) => if d.negative {
            seq!['-'] + magnitude_text(d.coefficient, d.exponent)
        } else {
            magnitude_text(d.coefficient, d.exponent)
        },
    }
}

/// The character of a digit below ten.
fn digit_of(d: u64) -> (c: char)
    requires
        d < 10,
    ensures
        c == digit_char(d as nat),
{
    if d == 0 {
        '0'
    } else if d == 1 {
        '1'
    } else if d == 2 {
        '2'
    } else if d == 3 {
        '3'
    } else if d == 4 {
        '4'
    } else if d == 5 {
        '5'
    } else if d == 6 {
        '6'
    } else if d == 7 {
        '7'
    } else if d == 8 {
        '8'
    } else {
        '9'
    }
}

/// Appends the decimal digits of `n`.
pub fn push_digits(out: &mut Vec<char>, n: u64)
    ensures
        final(out)@ == old(out)@ + digits(n as nat),
    decreases n,
{
    if n >= 10 {
        push_digits(out, n / 10);
    }
    out.push(digit_of(n % 10));
    assert(out@ =~= old(out)@ + digits(n as nat));
}

/// Appends the decimal text of `i`.
pub fn push_int(out: &mut Vec<char>, i: i64)
    ensures
        final(out)@ == old(out)@ + int_text(i as int),
{
    if i < 0 {
        out.push('-');
        let m: u64 = (-(i + 1)) as u64 + 1;
        push_digits(out, m);
        assert(out@ =~= old(out)@ + int_text(i as int));
    } else {
        push_digits(out, i as u64);
    }
}

/// Appends the characters `src[from..to]`.
pub fn push_slice(out: &mut Vec<char>, src: &Vec<char>, from: usize, to: usize)
    requires
        from <= to <= src.len(),
    ensures
        final(out)@ == old(out)@ + src@.subrange(from as int, to as int),
{
    let mut i: usize = from;
    while i < to
        invariant
            from <= i <= to <= src.len(),
            out@ == old(out)@ + src@.subrange(from as int, i as int),
        decreases to - i,
    {
        out.push(src[i]);
        i += 1;
        assert(out@ =~= old(out)@ + src@.subrange(from as int, i as int));
    }
}

/// Appends `n` zeros.
fn push_zeros(out: &mut Vec<char>, n: usize)
    ensures
        final(out)@ == old(out)@ + zeros(n as nat),
{
    let mut z: usize = 0;
    while z < n
        invariant
            z <= n,
            out@ == old(out)@ + zeros(z as nat),
        decreases n - z,
    {
        out.push('0');
        z += 1;
        assert(out@ =~= old(out)@ + zeros(z as nat));
    }
}

/// Appends the digits `ds` with a point before the last `k` of them.
fn push_positional(out: &mut Vec<char>, ds: &Vec<char>, k: usize)
    ensures
        final(out)@ == old(out)@ + positional(ds@, k as int),
{
    let n: usize = ds.len();
    if n > k {
        push_slice(out, ds, 0, n - k);
        out.push('.');
        push_slice(out, ds, n - k, n);
        assert(out@ =~= old(out)@ + positional(ds@, k as int));
    } else {
        out.push('0');
        out.push('.');
        push_zeros(out, k - n);
        push_slice(out, ds, 0, n);
        assert(ds@.subrange(0, n as int) =~= ds@);
        assert(out@ =~= old(out)@ + positional(ds@, k as int));
    }
}

/// Appends the canonical text of `n`.
pub fn push_number(out: &mut Vec<char>, n: &Number)
    ensures
        final(out)@ == old(out)@ + number_text(*n),
{
    match n {
        Number::PosInt(u) => push_digits(out, *u),
        Number::NegInt(i) => push_int(out, *i),
        Number::Float(d) => {
            if d.negative {
                out.push('-');
            }
            let ghost base = out@;
            if d.exponent >= 0 || d.exponent < -MAX_PLACES {
                push_digits(out, d.coefficient);
                out.push('e');
                push_int(out, d.exponent as i64);
                assert(out@ =~= base + magnitude_text(d.coefficient, d.exponent));
            } else {
                let mut ds: Vec<char> = Vec::new();
                push_digits(&mut ds, d.coefficient);
                assert(ds@ =~= digits(d.coefficient as nat));
                push_positional(out, &ds, (-d.exponent) as usize);
            }
            assert(out@ =~= old(out)@ + number_text(*n));
        },
    }
}

} // verus!
