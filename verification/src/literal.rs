//! The meaning of literals: digits in a base, and escapes in strings.

use vstd::prelude::*;

verus! {

/// The value of a digit: `0` to `9`, then `a` to `f` or `A` to `F` for ten to
/// fifteen. A character that is no digit counts as zero.
pub open spec fn digit_value(c: char) -> nat {
    if '0' as u32 <= c as u32 <= '9' as u32 {
        (c as u32 - '0' as u32) as nat
    } else if 'a' as u32 <= c as u32 <= 'f' as u32 {
        (c as u32 - 'a' as u32 + 10) as nat
    } else if 'A' as u32 <= c as u32 <= 'F' as u32 {
        (c as u32 - 'A' as u32 + 10) as nat
    } else {
        0
    }
}

/// The number read so far, after one more character: `_` separates digits
/// and changes nothing, a digit is added below the digits before it.
pub open spec fn radix_step(acc: nat, c: char, base: nat) -> nat {
    if c == '_' {
        acc
    } else {
        acc * base + digit_value(c)
    }
}

/// The number that `acc` followed by the digits `cs` in base `base` makes.
pub open spec fn radix_fold(acc: nat, cs: Seq<char>, base: nat) -> nat
    decreases cs.len(),
{
    if cs.len() == 0 {
        acc
    } else {
        radix_fold(radix_step(acc, cs[0], base), cs.drop_first(), base)
    }
}

/// How many of the characters are digits, not separators.
pub open spec fn digit_count(cs: Seq<char>) -> nat
    decreases cs.len(),
{
    if cs.len() == 0 {
        0
    } else {
        digit_count(cs.drop_first()) + if cs[0] == '_' {
            0nat
        } else {
            1nat
        }
    }
}

/// Reading more digits never makes the number smaller.
pub proof fn radix_fold_grows(acc: nat, cs: Seq<char>, base: nat)
    requires
        base >= 1,
    ensures
        radix_fold(acc, cs, base) >= acc,
    decreases cs.len(),
{
    if cs.len() > 0 {
        assert(acc * base >= acc) by (nonlinear_arith)
            requires
                base >= 1,
        ;
        radix_fold_grows(radix_step(acc, cs[0], base), cs.drop_first(), base);
    }
}

/// Reading `a` and then `b` is reading `a + b`.
pub proof fn radix_fold_concat(acc: nat, a: Seq<char>, b: Seq<char>, base: nat)
    ensures
        radix_fold(acc, a + b, base) == radix_fold(radix_fold(acc, a, base), b, base),
    decreases a.len(),
{
    if a.len() == 0 {
        assert(a + b =~= b);
    } else {
        assert((a + b).drop_first() =~= a.drop_first() + b);
        radix_fold_concat(radix_step(acc, a[0], base), a.drop_first(), b, base);
    }
}

/// The value of a digit.
fn digit_of(c: char) -> (d: u64)
    ensures
        d == digit_value(c),
        d < 16,
{
    let u: u32 = c as u32;
    if '0' as u32 <= u && u <= '9' as u32 {
        (u - '0' as u32) as u64
    } else if 'a' as u32 <= u && u <= 'f' as u32 {
        (u - 'a' as u32 + 10) as u64
    } else if 'A' as u32 <= u && u <= 'F' as u32 {
        (u - 'A' as u32 + 10) as u64
    } else {
        0
    }
}

/// Reads the digits `input[from..to]` in base `base` after the number `acc`.
/// Gives `None` exactly where the number does not fit in 64 bits.
pub fn read_radix(input: &Vec<char>, from: usize, to: usize, base: u64, acc: u64) -> (r: Option<
    u64,
>)
    requires
        from <= to <= input.len(),
        1 <= base <= 16,
    ensures
        match r {
            Some(v) => v == radix_fold(
                acc as nat,
                input@.subrange(from as int, to as int),
                base as nat,
            ),
            None => radix_fold(acc as nat, input@.subrange(from as int, to as int), base as nat)
                > u64::MAX,
        },
{
    let ghost goal = radix_fold(acc as nat, input@.subrange(from as int, to as int), base as nat);
    let mut v: u64 = acc;
    let mut i: usize = from;
    while i < to
        invariant
            from <= i <= to <= input.len(),
            1 <= base <= 16,
            goal == radix_fold(acc as nat, input@.subrange(from as int, to as int), base as nat),
            radix_fold(v as nat, input@.subrange(i as int, to as int), base as nat) == goal,
        decreases to - i,
    {
        let c = input[i];
        let ghost rest = input@.subrange(i as int, to as int);
        assert(rest[0] == c);
        assert(rest.drop_first() =~= input@.subrange(i + 1, to as int));
        if c != '_' {
            let d = digit_of(c);
            if v > (u64::MAX - d) / base {
                proof {
                    assert(v * base + d > u64::MAX) by (nonlinear_arith)
                        requires
                            v > (u64::MAX - d) / (base as int),
                            base >= 1,
                            0 <= d <= u64::MAX,
                    ;
                    radix_fold_grows(
                        radix_step(v as nat, c, base as nat),
                        rest.drop_first(),
                        base as nat,
                    );
                    assert(radix_fold(v as nat, rest, base as nat) == radix_fold(
                        radix_step(v as nat, c, base as nat),
                        rest.drop_first(),
                        base as nat,
                    ));
                }
                return None;
            }
            assert(v * base + d <= u64::MAX) by (nonlinear_arith)
                requires
                    v <= (u64::MAX - d) / (base as int),
                    base >= 1,
                    0 <= d <= u64::MAX,
            ;
            v = v * base + d;
        }
        i += 1;
    }
    Some(v)
}

/// Counts the digits among `input[from..to]`.
pub fn count_digits(input: &Vec<char>, from: usize, to: usize) -> (n: usize)
    requires
        from <= to <= input.len(),
    ensures
        n == digit_count(input@.subrange(from as int, to as int)),
{
    let ghost goal = digit_count(input@.subrange(from as int, to as int));
    let mut n: usize = 0;
    let mut i: usize = from;
    while i < to
        invariant
            from <= i <= to <= input.len(),
            n <= i - from,
            n + digit_count(input@.subrange(i as int, to as int)) == goal,
        decreases to - i,
    {
        let ghost rest = input@.subrange(i as int, to as int);
        assert(rest.drop_first() =~= input@.subrange(i + 1, to as int));
        if input[i] != '_' {
            n += 1;
        }
        i += 1;
    }
    n
}

/// The character that stands behind a backslash: `n`, `r` and `t` stand for
/// the line feed, the carriage return and the tab, every other character for
/// itself.
pub open spec fn unescape_char(c: char) -> char {
    if c == 'n' {
        '\n'
    } else if c == 'r' {
        '\r'
    } else if c == 't' {
        '\t'
    } else {
        c
    }
}

/// The text that the body of a string literal stands for: a backslash and
/// the character behind it are one character, as [`unescape_char`] says; a
/// backslash at the very end stands for itself.
pub open spec fn unescape(cs: Seq<char>) -> Seq<char>
    decreases cs.len(),
{
    if cs.len() == 0 {
        Seq::empty()
    } else if cs[0] == '\\' && cs.len() >= 2 {
        seq![unescape_char(cs[1])] + unescape(cs.subrange(2, cs.len() as int))
    } else {
        seq![cs[0]] + unescape(cs.drop_first())
    }
}

/// Resolves the escapes in `input[from..to]`.
pub fn read_escaped(input: &Vec<char>, from: usize, to: usize) -> (s: String)
    requires
        from <= to <= input.len(),
    ensures
        s@ == unescape(input@.subrange(from as int, to as int)),
{
    let ghost goal = unescape(input@.subrange(from as int, to as int));
    let mut s = String::new();
    let mut i: usize = from;
    while i < to
        invariant
            from <= i <= to <= input.len(),
            s@ + unescape(input@.subrange(i as int, to as int)) == goal,
        decreases to - i,
    {
        let c = input[i];
        let ghost rest = input@.subrange(i as int, to as int);
        assert(rest[0] == c);
        if c == '\\' && to - i >= 2 {
            let e = input[i + 1];
            assert(rest[1] == e);
            assert(rest.subrange(2, rest.len() as int) =~= input@.subrange(i + 2, to as int));
            let ghost before = s@;
            let x = if e == 'n' {
                '\n'
            } else if e == 'r' {
                '\r'
            } else if e == 't' {
                '\t'
            } else {
                e
            };
            s.push(x);
            assert(s@ + unescape(input@.subrange(i + 2, to as int)) =~= before + unescape(rest));
            i += 2;
        } else {
            assert(rest.drop_first() =~= input@.subrange(i + 1, to as int));
            let ghost before = s@;
            s.push(c);
            assert(s@ + unescape(input@.subrange(i + 1, to as int)) =~= before + unescape(rest));
            i += 1;
        }
    }
    assert(input@.subrange(to as int, to as int) =~= Seq::<char>::empty());
    assert(s@ =~= goal);
    s
}

} // verus!
