//! How the grammar reads the text of an integer, and what the builder makes
//! of it.

use vstd::prelude::*;
use crate::builder::data_value;
use crate::grammar::{digit, digits, grammar, opt, or, star, then};
use crate::literal::{digit_value, radix_fold, radix_fold_concat, radix_step};
use crate::laws::matches::{
    char_refuses, char_yields, class_refuses, lit_refuses_by_first, node, node_refuses,
    node_yields, opt_skips, opt_yields, or_refuses, or_yields_first, or_yields_second,
    range_refuses, range_yields, refuses, star_steps, star_stops, then_refuses_first,
    then_refuses_second, then_yields, yields,
};
use crate::number::{digit_char, digits as digits_of, Number};
use crate::peg::{has_at, is_digit, is_letter, CharClass, Expr, Tree};
use crate::rule::Rule;
use crate::scalar::LiteralError;
use crate::value::Val;

verus! {

/// Whether the character at `end` closes a value: the text ends there, or a
/// comma or a closing bracket stands there.
pub open spec fn closes(s: Seq<char>, end: int) -> bool {
    end >= s.len() || s[end] == ',' || s[end] == ']' || s[end] == '}'
}

/// An expression that takes one character wherever it matches takes a run
/// of such characters whole and stops where it fails.
pub proof fn star_run(a: Expr, s: Seq<char>, pos: usize, end: usize, d: nat)
    requires
        pos <= end <= s.len() <= usize::MAX,
        forall|i: usize|
            pos <= i < end ==> #[trigger] yields(a, s, i, d, (i + 1) as usize, Seq::empty()),
        refuses(a, s, end, d),
    ensures
        yields(star(a), s, pos, d, end, Seq::empty()),
    decreases end - pos,
{
    if pos == end {
        star_stops(a, s, pos, d);
    } else {
        star_run(a, s, (pos + 1) as usize, end, d);
        assert(yields(a, s, pos, d, (pos + 1) as usize, Seq::empty()));
        star_steps(a, s, pos, d, (pos + 1) as usize, end, Seq::empty(), Seq::empty());
        assert(Seq::<Tree>::empty() + Seq::<Tree>::empty() =~= Seq::<Tree>::empty());
    }
}

/// Whether the characters `from..to` of `s` are digits.
pub open spec fn all_digits(s: Seq<char>, from: int, to: int) -> bool {
    forall|i: int| from <= i < to ==> is_digit(#[trigger] s[i])
}

/// Whether no digit and no `_` stands at `end`.
pub open spec fn no_digit_at(s: Seq<char>, end: int) -> bool {
    end >= s.len() || (!is_digit(s[end]) && s[end] != '_')
}

/// The digits of a number are digits; the first is `0` only for zero.
pub proof fn digits_facts(n: nat)
    ensures
        digits_of(n).len() >= 1,
        all_digits(digits_of(n), 0, digits_of(n).len() as int),
        n == 0 ==> digits_of(n) == seq!['0'],
        n > 0 ==> digits_of(n)[0] != '0',
        n > 0 ==> '1' as u32 <= digits_of(n)[0] as u32 <= '9' as u32,
    decreases n,
{
    if n >= 10 {
        digits_facts(n / 10);
        let head = digits_of(n / 10);
        assert(digits_of(n) == head.push(digit_char(n % 10)));
        assert forall|i: int| 0 <= i < digits_of(n).len() implies is_digit(
            #[trigger] digits_of(n)[i],
        ) by {
            if i < head.len() {
                assert(is_digit(head[i]));
            }
        }
    }
}

/// Reading the digits of a number in base ten gives the number.
pub proof fn radix_of_digits(n: nat)
    ensures
        radix_fold(0, digits_of(n), 10) == n,
    decreases n,
{
    if n < 10 {
        let one = digits_of(n);
        assert(one.drop_first() =~= Seq::<char>::empty());
        assert(radix_fold(radix_step(0, one[0], 10), one.drop_first(), 10) == radix_step(
            0,
            one[0],
            10,
        ));
    } else {
        radix_of_digits(n / 10);
        let head = digits_of(n / 10);
        let last = seq![digit_char(n % 10)];
        assert(digits_of(n) =~= head + last);
        radix_fold_concat(0, head, last, 10);
        assert(last.drop_first() =~= Seq::<char>::empty());
        assert(radix_fold(radix_step(n / 10, last[0], 10), last.drop_first(), 10) == radix_step(
            n / 10,
            last[0],
            10,
        ));
        assert(digit_value(digit_char(n % 10)) == n % 10);
    }
}

/// Digits with separators take a run of digits whole.
pub proof fn digits_run(s: Seq<char>, pos: usize, end: usize, d: nat)
    requires
        pos <= end <= s.len() <= usize::MAX,
        all_digits(s, pos as int, end as int),
        no_digit_at(s, end as int),
    ensures
        yields(digits(), s, pos, d, end, Seq::empty()),
{
    let a = then(opt(Expr::Char('_')), digit());
    assert forall|i: usize| pos <= i < end implies #[trigger] yields(
        a,
        s,
        i,
        d,
        (i + 1) as usize,
        Seq::empty(),
    ) by {
        assert(is_digit(s[i as int]));
        char_refuses('_', s, i, d);
        opt_skips(Expr::Char('_'), s, i, d);
        range_yields('0', '9', s, i, d);
        then_yields(
            opt(Expr::Char('_')),
            digit(),
            s,
            i,
            d,
            i,
            (i + 1) as usize,
            Seq::empty(),
            Seq::empty(),
        );
        assert(Seq::<Tree>::empty() + Seq::<Tree>::empty() =~= Seq::<Tree>::empty());
    }
    char_refuses('_', s, end, d);
    opt_skips(Expr::Char('_'), s, end, d);
    range_refuses('0', '9', s, end, d);
    then_refuses_second(opt(Expr::Char('_')), digit(), s, end, d, end, Seq::empty());
    star_run(a, s, pos, end, d);
}

/// Rule `Integer` takes a run of digits whole that does not start with a
/// `0`, and a single `0`.
pub proof fn integer_run(s: Seq<char>, pos: usize, end: usize, d: nat)
    requires
        d >= 1,
        pos < end <= s.len() <= usize::MAX,
        all_digits(s, pos as int, end as int),
        s[pos as int] == '0' ==> end == pos + 1,
        s[pos as int] != '0' ==> '1' as u32 <= s[pos as int] as u32 && no_digit_at(s, end as int),
    ensures
        yields(
            Expr::Node(Rule::Integer),
            s,
            pos,
            d,
            end,
            seq![node(Rule::Integer, pos, end, Seq::empty())],
        ),
{
    let d1 = (d - 1) as nat;
    let tail = then(Expr::Range('1', '9'), digits());
    assert(is_digit(s[pos as int]));
    if s[pos as int] == '0' {
        char_yields('0', s, pos, d1);
        or_yields_first(Expr::Char('0'), tail, s, pos, d1, end, Seq::empty());
    } else {
        char_refuses('0', s, pos, d1);
        range_yields('1', '9', s, pos, d1);
        digits_run(s, (pos + 1) as usize, end, d1);
        then_yields(
            Expr::Range('1', '9'),
            digits(),
            s,
            pos,
            d1,
            (pos + 1) as usize,
            end,
            Seq::empty(),
            Seq::empty(),
        );
        assert(Seq::<Tree>::empty() + Seq::<Tree>::empty() =~= Seq::<Tree>::empty());
        or_yields_second(Expr::Char('0'), tail, s, pos, d1, end, Seq::empty());
    }
    node_yields(Rule::Integer, s, pos, d, end, Seq::empty());
}

/// The `Integer` node of the digits of `n` at `pos`.
pub open spec fn integer_tree(pos: usize, n: nat) -> Tree {
    node(Rule::Integer, pos, (pos + digits_of(n).len()) as usize, Seq::empty())
}

/// Rule `Integer` takes the digits of a number whole.
pub proof fn integer_yields(s: Seq<char>, pos: usize, n: nat, d: nat)
    requires
        d >= 1,
        s.len() <= usize::MAX,
        has_at(s, pos, digits_of(n)),
        no_digit_at(s, pos + digits_of(n).len()),
    ensures
        yields(
            Expr::Node(Rule::Integer),
            s,
            pos,
            d,
            (pos + digits_of(n).len()) as usize,
            seq![integer_tree(pos, n)],
        ),
{
    let ds = digits_of(n);
    let end = (pos + ds.len()) as usize;
    let d1 = (d - 1) as nat;
    digits_facts(n);
    assert forall|i: int| pos <= i < end implies is_digit(#[trigger] s[i]) by {
        assert(s.subrange(pos as int, end as int)[i - pos] == ds[i - pos]);
        assert(is_digit(ds[i - pos]));
    }
    assert(s[pos as int] == ds[0]) by {
        assert(s.subrange(pos as int, end as int)[0] == ds[0]);
    }
    let tail = then(Expr::Range('1', '9'), digits());
    if n == 0 {
        char_yields('0', s, pos, d1);
        or_yields_first(Expr::Char('0'), tail, s, pos, d1, end, Seq::empty());
    } else {
        assert(is_digit(ds[0]));
        char_refuses('0', s, pos, d1);
        range_yields('1', '9', s, pos, d1);
        digits_run(s, (pos + 1) as usize, end, d1);
        then_yields(
            Expr::Range('1', '9'),
            digits(),
            s,
            pos,
            d1,
            (pos + 1) as usize,
            end,
            Seq::empty(),
            Seq::empty(),
        );
        assert(Seq::<Tree>::empty() + Seq::<Tree>::empty() =~= Seq::<Tree>::empty());
        or_yields_second(Expr::Char('0'), tail, s, pos, d1, end, Seq::empty());
    }
    node_yields(Rule::Integer, s, pos, d, end, Seq::empty());
}

/// Rule `Integer` fails where no digit stands.
pub proof fn integer_refuses(s: Seq<char>, pos: usize, d: nat)
    requires
        d >= 1,
        pos >= s.len() || !is_digit(s[pos as int]),
    ensures
        refuses(Expr::Node(Rule::Integer), s, pos, d),
{
    let d1 = (d - 1) as nat;
    char_refuses('0', s, pos, d1);
    range_refuses('1', '9', s, pos, d1);
    then_refuses_first(Expr::Range('1', '9'), digits(), s, pos, d1);
    or_refuses(Expr::Char('0'), then(Expr::Range('1', '9'), digits()), s, pos, d1);
    node_refuses(Rule::Integer, s, pos, d);
}

/// Rule `Sign` fails where neither `+` nor `-` stands.
pub proof fn sign_refuses(s: Seq<char>, pos: usize, d: nat)
    requires
        d >= 1,
        pos >= s.len() || (s[pos as int] != '+' && s[pos as int] != '-'),
    ensures
        refuses(Expr::Node(Rule::Sign), s, pos, d),
        yields(opt(Expr::Node(Rule::Sign)), s, pos, d, pos, Seq::empty()),
{
    let d1 = (d - 1) as nat;
    char_refuses('+', s, pos, d1);
    char_refuses('-', s, pos, d1);
    or_refuses(Expr::Char('+'), Expr::Char('-'), s, pos, d1);
    node_refuses(Rule::Sign, s, pos, d);
    opt_skips(Expr::Node(Rule::Sign), s, pos, d);
}

/// The `Sign` node at `pos`.
pub open spec fn sign_tree(pos: usize) -> Tree {
    node(Rule::Sign, pos, (pos + 1) as usize, Seq::empty())
}

/// Rule `Sign` takes a `-`.
pub proof fn minus_yields(s: Seq<char>, pos: usize, d: nat)
    requires
        d >= 1,
        pos < s.len() <= usize::MAX,
        s[pos as int] == '-',
    ensures
        yields(opt(Expr::Node(Rule::Sign)), s, pos, d, (pos + 1) as usize, seq![sign_tree(pos)]),
{
    let d1 = (d - 1) as nat;
    let end = (pos + 1) as usize;
    char_refuses('+', s, pos, d1);
    char_yields('-', s, pos, d1);
    or_yields_second(Expr::Char('+'), Expr::Char('-'), s, pos, d1, end, Seq::empty());
    node_yields(Rule::Sign, s, pos, d, end, Seq::empty());
    opt_yields(Expr::Node(Rule::Sign), s, pos, d, end, seq![sign_tree(pos)]);
}

/// Rule `SYMBOL` fails where a value is closed.
pub proof fn symbol_refuses(s: Seq<char>, pos: usize, d: nat)
    requires
        d >= 1,
        pos >= s.len() || ((s[pos as int] as u32) < 0x80 && !is_letter(s[pos as int])
            && s[pos as int] != '_'),
    ensures
        refuses(Expr::Node(Rule::SYMBOL), s, pos, d),
{
    let d1 = (d - 1) as nat;
    let first = or(Expr::Class(CharClass::XidStart), Expr::Char('_'));
    let rest = star(or(Expr::Class(CharClass::XidContinue), Expr::Char('_')));
    class_refuses(CharClass::XidStart, s, pos, d1);
    char_refuses('_', s, pos, d1);
    or_refuses(Expr::Class(CharClass::XidStart), Expr::Char('_'), s, pos, d1);
    then_refuses_first(first, rest, s, pos, d1);
    node_refuses(Rule::SYMBOL, s, pos, d);
}

/// The three rules of a number with a point fail, and rule `Integer`
/// matches, where the digits of `n` stand and no point follows.
proof fn plain_body_yields(s: Seq<char>, pos: usize, n: nat, d: nat)
    requires
        d >= 2,
        s.len() <= usize::MAX,
        has_at(s, pos, digits_of(n)),
        no_digit_at(s, pos + digits_of(n).len()),
        pos + digits_of(n).len() >= s.len() || s[pos + digits_of(n).len()] != '.',
    ensures
        yields(
            or(
                Expr::Node(Rule::Decimal),
                or(Expr::Node(Rule::DecimalBad), Expr::Node(Rule::Integer)),
            ),
            s,
            pos,
            d,
            (pos + digits_of(n).len()) as usize,
            seq![integer_tree(pos, n)],
        ),
{
    let ds = digits_of(n);
    let end = (pos + ds.len()) as usize;
    let d1 = (d - 1) as nat;
    let it = seq![integer_tree(pos, n)];
    digits_facts(n);
    assert(s[pos as int] == ds[0]) by {
        assert(s.subrange(pos as int, end as int)[0] == ds[0]);
    }
    assert(is_digit(ds[0]));
    integer_yields(s, pos, n, d);
    integer_yields(s, pos, n, d1);
    // Decimal
    char_refuses('.', s, end, d1);
    then_refuses_second(Expr::Node(Rule::Integer), Expr::Char('.'), s, pos, d1, end, it);
    then_refuses_first(
        then(Expr::Node(Rule::Integer), Expr::Char('.')),
        digits(),
        s,
        pos,
        d1,
    );
    node_refuses(Rule::Decimal, s, pos, d);
    // DecimalBad
    char_refuses('.', s, pos, d1);
    then_refuses_first(Expr::Char('.'), digits(), s, pos, d1);
    or_refuses(
        then(Expr::Node(Rule::Integer), Expr::Char('.')),
        then(Expr::Char('.'), digits()),
        s,
        pos,
        d1,
    );
    node_refuses(Rule::DecimalBad, s, pos, d);
    or_yields_second(
        Expr::Node(Rule::DecimalBad),
        Expr::Node(Rule::Integer),
        s,
        pos,
        d,
        end,
        it,
    );
    or_yields_second(
        Expr::Node(Rule::Decimal),
        or(Expr::Node(Rule::DecimalBad), Expr::Node(Rule::Integer)),
        s,
        pos,
        d,
        end,
        it,
    );
}

/// The text of an integer literal: a `-` where `negative` is set, then the
/// digits of `m`.
pub open spec fn integer_text(negative: bool, m: nat) -> Seq<char> {
    if negative {
        seq!['-'] + digits_of(m)
    } else {
        digits_of(m)
    }
}

/// The `SignedNumber` node of an integer literal at `pos`.
pub open spec fn signed_tree(pos: usize, negative: bool, m: nat) -> Tree {
    node(
        Rule::SignedNumber,
        pos,
        (pos + integer_text(negative, m).len()) as usize,
        if negative {
            seq![sign_tree(pos), integer_tree((pos + 1) as usize, m)]
        } else {
            seq![integer_tree(pos, m)]
        },
    )
}

/// Rule `SignedNumber` takes an integer literal whole.
pub proof fn signed_yields(s: Seq<char>, pos: usize, negative: bool, m: nat, d: nat)
    requires
        d >= 3,
        s.len() <= usize::MAX,
        has_at(s, pos, integer_text(negative, m)),
        no_digit_at(s, pos + integer_text(negative, m).len()),
        pos + integer_text(negative, m).len() >= s.len() || s[pos + integer_text(
            negative,
            m,
        ).len()] != '.',
    ensures
        yields(
            Expr::Node(Rule::SignedNumber),
            s,
            pos,
            d,
            (pos + integer_text(negative, m).len()) as usize,
            seq![signed_tree(pos, negative, m)],
        ),
{
    let t = integer_text(negative, m);
    let end = (pos + t.len()) as usize;
    let d1 = (d - 1) as nat;
    let body = or(
        Expr::Node(Rule::Decimal),
        or(Expr::Node(Rule::DecimalBad), Expr::Node(Rule::Integer)),
    );
    digits_facts(m);
    if negative {
        let from = (pos + 1) as usize;
        assert(s[pos as int] == '-') by {
            assert(s.subrange(pos as int, end as int)[0] == t[0]);
        }
        assert(s.subrange(from as int, end as int) =~= digits_of(m)) by {
            assert(s.subrange(pos as int, end as int) == t);
            assert forall|i: int| 0 <= i < digits_of(m).len() implies s.subrange(
                from as int,
                end as int,
            )[i] == digits_of(m)[i] by {
                assert(s.subrange(pos as int, end as int)[i + 1] == t[i + 1]);
            }
        }
        minus_yields(s, pos, d1);
        plain_body_yields(s, from, m, d1);
        then_yields(
            opt(Expr::Node(Rule::Sign)),
            body,
            s,
            pos,
            d1,
            from,
            end,
            seq![sign_tree(pos)],
            seq![integer_tree(from, m)],
        );
        assert(seq![sign_tree(pos)] + seq![integer_tree(from, m)] =~= seq![
            sign_tree(pos),
            integer_tree(from, m),
        ]);
        node_yields(
            Rule::SignedNumber,
            s,
            pos,
            d,
            end,
            seq![sign_tree(pos), integer_tree(from, m)],
        );
    } else {
        assert(s[pos as int] == t[0]) by {
            assert(s.subrange(pos as int, end as int)[0] == t[0]);
        }
        assert(is_digit(t[0]));
        sign_refuses(s, pos, d1);
        plain_body_yields(s, pos, m, d1);
        then_yields(
            opt(Expr::Node(Rule::Sign)),
            body,
            s,
            pos,
            d1,
            pos,
            end,
            Seq::empty(),
            seq![integer_tree(pos, m)],
        );
        assert(Seq::<Tree>::empty() + seq![integer_tree(pos, m)] =~= seq![integer_tree(pos, m)]);
        node_yields(Rule::SignedNumber, s, pos, d, end, seq![integer_tree(pos, m)]);
    }
}

/// The `Number` node of an integer literal at `pos`.
pub open spec fn number_tree(pos: usize, negative: bool, m: nat) -> Tree {
    node(
        Rule::Number,
        pos,
        (pos + integer_text(negative, m).len()) as usize,
        seq![signed_tree(pos, negative, m)],
    )
}

/// The mark of an exponent fails where a value is closed.
pub proof fn mark_refuses(s: Seq<char>, end: usize, d: nat)
    requires
        closes(s, end as int),
    ensures
        refuses(or(Expr::Char('e'), or(Expr::Char('E'), Expr::Lit("**"))), s, end, d),
{
    reveal_strlit("**");
    char_refuses('e', s, end, d);
    char_refuses('E', s, end, d);
    lit_refuses_by_first("**", s, end, d);
    or_refuses(Expr::Char('E'), Expr::Lit("**"), s, end, d);
    or_refuses(Expr::Char('e'), or(Expr::Char('E'), Expr::Lit("**")), s, end, d);
}

/// Rule `Number` takes an integer literal whole where a value is closed
/// behind it.
pub proof fn number_yields(s: Seq<char>, pos: usize, negative: bool, m: nat, d: nat)
    requires
        d >= 5,
        s.len() <= usize::MAX,
        has_at(s, pos, integer_text(negative, m)),
        closes(s, pos + integer_text(negative, m).len()),
    ensures
        yields(
            Expr::Node(Rule::Number),
            s,
            pos,
            d,
            (pos + integer_text(negative, m).len()) as usize,
            seq![number_tree(pos, negative, m)],
        ),
{
    let t = integer_text(negative, m);
    let end = (pos + t.len()) as usize;
    let d1 = (d - 1) as nat;
    let d2 = (d - 2) as nat;
    let st = seq![signed_tree(pos, negative, m)];
    let mark = or(Expr::Char('e'), or(Expr::Char('E'), Expr::Lit("**")));
    signed_yields(s, pos, negative, m, d1);
    signed_yields(s, pos, negative, m, d2);
    mark_refuses(s, end, d2);
    let e1 = then(Expr::Node(Rule::SignedNumber), mark);
    let e2 = then(e1, opt(Expr::Node(Rule::Sign)));
    let e3 = then(e2, digit());
    then_refuses_second(Expr::Node(Rule::SignedNumber), mark, s, pos, d2, end, st);
    then_refuses_first(e1, opt(Expr::Node(Rule::Sign)), s, pos, d2);
    then_refuses_first(e2, digit(), s, pos, d2);
    then_refuses_first(e3, star(digit()), s, pos, d2);
    node_refuses(Rule::Exponent, s, pos, d1);
    or_yields_second(
        Expr::Node(Rule::Exponent),
        Expr::Node(Rule::SignedNumber),
        s,
        pos,
        d1,
        end,
        st,
    );
    symbol_refuses(s, end, d1);
    opt_skips(Expr::Node(Rule::SYMBOL), s, end, d1);
    then_yields(
        or(Expr::Node(Rule::Exponent), Expr::Node(Rule::SignedNumber)),
        opt(Expr::Node(Rule::SYMBOL)),
        s,
        pos,
        d1,
        end,
        end,
        st,
        Seq::empty(),
    );
    assert(st + Seq::<Tree>::empty() =~= st);
    node_yields(Rule::Number, s, pos, d, end, st);
}

/// Whether a byte literal may start at `pos`: a `0` and one of the letters
/// that name a base.
pub open spec fn byte_start(s: Seq<char>, pos: int) -> bool {
    pos + 1 < s.len() && s[pos] == '0' && (s[pos + 1] == 'b' || s[pos + 1] == 'B' || s[pos + 1]
        == 'o' || s[pos + 1] == 'O' || s[pos + 1] == 'x' || s[pos + 1] == 'X')
}

/// One of the three rules of byte literals fails where no byte literal
/// starts.
proof fn based_refuses(
    r: Rule,
    lower: char,
    upper: char,
    digit: Expr,
    s: Seq<char>,
    pos: usize,
    d: nat,
)
    requires
        d >= 1,
        s.len() <= usize::MAX,
        grammar(r) == then(
            then(then(Expr::Char('0'), or(Expr::Char(lower), Expr::Char(upper))), digit),
            star(digit),
        ),
        !(pos + 1 < s.len() && s[pos as int] == '0' && (s[pos + 1] == lower || s[pos + 1]
            == upper)),
    ensures
        refuses(Expr::Node(r), s, pos, d),
{
    let d1 = (d - 1) as nat;
    let letter = or(Expr::Char(lower), Expr::Char(upper));
    let e1 = then(Expr::Char('0'), letter);
    let e2 = then(e1, digit);
    if pos < s.len() && s[pos as int] == '0' {
        let next = (pos + 1) as usize;
        char_yields('0', s, pos, d1);
        char_refuses(lower, s, next, d1);
        char_refuses(upper, s, next, d1);
        or_refuses(Expr::Char(lower), Expr::Char(upper), s, next, d1);
        then_refuses_second(Expr::Char('0'), letter, s, pos, d1, next, Seq::empty());
    } else {
        char_refuses('0', s, pos, d1);
        then_refuses_first(Expr::Char('0'), letter, s, pos, d1);
    }
    then_refuses_first(e1, digit, s, pos, d1);
    then_refuses_first(e2, star(digit), s, pos, d1);
    node_refuses(r, s, pos, d);
}

/// Rule `Byte` fails where no byte literal starts.
pub proof fn byte_refuses(s: Seq<char>, pos: usize, d: nat)
    requires
        d >= 2,
        s.len() <= usize::MAX,
        !byte_start(s, pos as int),
    ensures
        refuses(Expr::Node(Rule::Byte), s, pos, d),
{
    let d1 = (d - 1) as nat;
    based_refuses(Rule::Byte_BIN, 'b', 'B', Expr::Range('0', '1'), s, pos, d1);
    based_refuses(Rule::Byte_OCT, 'o', 'O', Expr::Range('0', '7'), s, pos, d1);
    based_refuses(Rule::Byte_HEX, 'x', 'X', crate::grammar::hex_digit(), s, pos, d1);
    or_refuses(Expr::Node(Rule::Byte_OCT), Expr::Node(Rule::Byte_HEX), s, pos, d1);
    or_refuses(
        Expr::Node(Rule::Byte_BIN),
        or(Expr::Node(Rule::Byte_OCT), Expr::Node(Rule::Byte_HEX)),
        s,
        pos,
        d1,
    );
    then_refuses_first(
        or(Expr::Node(Rule::Byte_BIN), or(Expr::Node(Rule::Byte_OCT), Expr::Node(Rule::Byte_HEX))),
        opt(then(Expr::Char('_'), Expr::Node(Rule::SYMBOL))),
        s,
        pos,
        d1,
    );
    node_refuses(Rule::Byte, s, pos, d);
}

/// The alternatives of rule `data` behind the first two.
pub open spec fn data_tail() -> Expr {
    or(
        Expr::Node(Rule::Special),
        or(
            Expr::Node(Rule::String),
            or(
                Expr::Node(Rule::cite_value),
                or(
                    Expr::Node(Rule::dict_literal),
                    or(
                        Expr::Node(Rule::list_literal),
                        or(Expr::Node(Rule::import_statement), Expr::Node(Rule::InlineString)),
                    ),
                ),
            ),
        ),
    )
}

/// The `data` node of an integer literal at `pos`.
pub open spec fn integer_data(pos: usize, negative: bool, m: nat) -> Tree {
    node(
        Rule::data,
        pos,
        (pos + integer_text(negative, m).len()) as usize,
        seq![number_tree(pos, negative, m)],
    )
}

/// Rule `data` takes an integer literal whole where a value is closed
/// behind it.
pub proof fn integer_data_yields(s: Seq<char>, pos: usize, negative: bool, m: nat, d: nat)
    requires
        d >= 6,
        s.len() <= usize::MAX,
        has_at(s, pos, integer_text(negative, m)),
        closes(s, pos + integer_text(negative, m).len()),
    ensures
        yields(
            Expr::Node(Rule::data),
            s,
            pos,
            d,
            (pos + integer_text(negative, m).len()) as usize,
            seq![integer_data(pos, negative, m)],
        ),
{
    let t = integer_text(negative, m);
    let end = (pos + t.len()) as usize;
    let d1 = (d - 1) as nat;
    let nt = seq![number_tree(pos, negative, m)];
    digits_facts(m);
    assert(s[pos as int] == t[0]) by {
        assert(s.subrange(pos as int, end as int)[0] == t[0]);
    }
    if !negative && pos + 1 < s.len() && s[pos as int] == '0' {
        assert(m == 0) by {
            if m > 0 {
                assert(t[0] != '0');
            }
        }
    }
    byte_refuses(s, pos, d1);
    number_yields(s, pos, negative, m, d1);
    or_yields_first(Expr::Node(Rule::Number), data_tail(), s, pos, d1, end, nt);
    or_yields_second(
        Expr::Node(Rule::Byte),
        or(Expr::Node(Rule::Number), data_tail()),
        s,
        pos,
        d1,
        end,
        nt,
    );
    node_yields(Rule::data, s, pos, d, end, nt);
}

/// The number that an integer literal stands for.
pub open spec fn integer_of(negative: bool, m: nat) -> Number {
    if negative && m > 0 {
        Number::NegInt((-(m as int)) as i64)
    } else {
        Number::PosInt(m as u64)
    }
}

/// The builder makes of the `data` node of an integer literal the number
/// that the literal stands for.
pub proof fn integer_data_value(s: Seq<char>, pos: usize, negative: bool, m: nat)
    requires
        s.len() <= usize::MAX,
        has_at(s, pos, integer_text(negative, m)),
        m <= u64::MAX,
        negative ==> m <= 0x8000_0000_0000_0000,
    ensures
        data_value(integer_data(pos, negative, m), s) == Ok::<Val, LiteralError>(
            Val::Number(integer_of(negative, m)),
        ),
{
    let t = integer_text(negative, m);
    let end = (pos + t.len()) as usize;
    let from = if negative {
        (pos + 1) as usize
    } else {
        pos
    };
    radix_of_digits(m);
    digits_facts(m);
    assert(s.subrange(from as int, end as int) =~= digits_of(m)) by {
        assert(s.subrange(pos as int, end as int) == t);
        assert forall|i: int| 0 <= i < digits_of(m).len() implies s.subrange(
            from as int,
            end as int,
        )[i] == digits_of(m)[i] by {
            assert(s.subrange(pos as int, end as int)[i + (from - pos)] == t[i + (from - pos)]);
        }
    }
    if negative {
        assert(s[pos as int] == '-') by {
            assert(s.subrange(pos as int, end as int)[0] == t[0]);
        }
    }
    let it = integer_tree(from, m);
    assert(crate::scalar::integer_value(it, s) == Ok::<u64, LiteralError>(m as u64));
    let sn = signed_tree(pos, negative, m);
    assert(crate::scalar::signed_parts(sn, s) == Ok::<crate::scalar::Parts, LiteralError>(
        crate::scalar::Parts { negative, magnitude: m as u64, exponent: 0, float: false },
    ));
    let nt = number_tree(pos, negative, m);
    assert(crate::scalar::number_value(nt, s) == Ok::<Val, LiteralError>(
        Val::Number(integer_of(negative, m)),
    ));
}

/// The builder reads the sign and the digits of the `SignedNumber` node of
/// an integer literal.
pub proof fn integer_parts(s: Seq<char>, pos: usize, negative: bool, m: nat)
    requires
        s.len() <= usize::MAX,
        has_at(s, pos, integer_text(negative, m)),
        m <= u64::MAX,
    ensures
        crate::scalar::signed_parts(signed_tree(pos, negative, m), s) == Ok::<
            crate::scalar::Parts,
            LiteralError,
        >(crate::scalar::Parts { negative, magnitude: m as u64, exponent: 0, float: false }),
{
    let t = integer_text(negative, m);
    let end = (pos + t.len()) as usize;
    let from = if negative {
        (pos + 1) as usize
    } else {
        pos
    };
    radix_of_digits(m);
    digits_facts(m);
    assert(s.subrange(from as int, end as int) =~= digits_of(m)) by {
        assert(s.subrange(pos as int, end as int) == t);
        assert forall|i: int| 0 <= i < digits_of(m).len() implies s.subrange(
            from as int,
            end as int,
        )[i] == digits_of(m)[i] by {
            assert(s.subrange(pos as int, end as int)[i + (from - pos)] == t[i + (from - pos)]);
        }
    }
    if negative {
        assert(s[pos as int] == '-') by {
            assert(s.subrange(pos as int, end as int)[0] == t[0]);
        }
    }
    let it = integer_tree(from, m);
    assert(crate::scalar::integer_value(it, s) == Ok::<u64, LiteralError>(m as u64));
}

} // verus!
