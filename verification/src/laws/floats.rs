//! How the grammar reads the text of a floating value, and what the builder
//! makes of it.

use vstd::prelude::*;
use crate::builder::data_value;
use crate::grammar::{digit, digits, grammar, opt, or, star, then};
use crate::laws::layout::{char_at, part_at};
use crate::literal::{digit_count, radix_fold, radix_fold_concat, radix_step};
use crate::laws::matches::{
    char_yields, node, node_refuses, node_yields, opt_skips, or_yields_first, or_yields_second,
    range_refuses, range_yields, refuses, then_refuses_first, then_refuses_second, then_yields,
    yields,
};
use crate::number::{
    digits as digits_of, int_text, number_text, positional, zeros, Decimal, Number, MAX_PLACES,
};
use crate::laws::numerals::{
    all_digits, byte_refuses, byte_start, closes, data_tail, digits_facts, digits_run,
    integer_parts, integer_run, integer_text, mark_refuses, minus_yields, no_digit_at,
    radix_of_digits, sign_refuses, sign_tree, signed_tree, signed_yields, star_run,
    symbol_refuses,
};
use crate::peg::{has_at, is_digit, Expr, Tree};
use crate::rule::Rule;
use crate::scalar::{LiteralError, Parts};
use crate::value::Val;

verus! {

/// Rule `Exponent` fails where rule `SignedNumber` matches and a value is
/// closed behind the match.
pub proof fn exponent_refuses(s: Seq<char>, pos: usize, end: usize, st: Tree, d: nat)
    requires
        d >= 1,
        yields(Expr::Node(Rule::SignedNumber), s, pos, (d - 1) as nat, end, seq![st]),
        closes(s, end as int),
    ensures
        refuses(Expr::Node(Rule::Exponent), s, pos, d),
{
    let d1 = (d - 1) as nat;
    let mark = or(Expr::Char('e'), or(Expr::Char('E'), Expr::Lit("**")));
    mark_refuses(s, end, d1);
    let e1 = then(Expr::Node(Rule::SignedNumber), mark);
    let e2 = then(e1, opt(Expr::Node(Rule::Sign)));
    let e3 = then(e2, digit());
    then_refuses_second(Expr::Node(Rule::SignedNumber), mark, s, pos, d1, end, seq![st]);
    then_refuses_first(e1, opt(Expr::Node(Rule::Sign)), s, pos, d1);
    then_refuses_first(e2, digit(), s, pos, d1);
    then_refuses_first(e3, star(digit()), s, pos, d1);
    node_refuses(Rule::Exponent, s, pos, d);
}

/// Rule `data` takes what rule `Exponent`, or after its failure rule
/// `SignedNumber`, takes where a value is closed behind it and no byte
/// literal starts.
pub proof fn number_data_yields(s: Seq<char>, pos: usize, end: usize, inner: Tree, d: nat)
    requires
        d >= 3,
        s.len() <= usize::MAX,
        closes(s, end as int),
        !byte_start(s, pos as int),
        yields(Expr::Node(Rule::Exponent), s, pos, (d - 2) as nat, end, seq![inner]) || (refuses(
            Expr::Node(Rule::Exponent),
            s,
            pos,
            (d - 2) as nat,
        ) && yields(Expr::Node(Rule::SignedNumber), s, pos, (d - 2) as nat, end, seq![inner])),
    ensures
        yields(
            Expr::Node(Rule::data),
            s,
            pos,
            d,
            end,
            seq![node(Rule::data, pos, end, seq![node(Rule::Number, pos, end, seq![inner])])],
        ),
{
    let d1 = (d - 1) as nat;
    let d2 = (d - 2) as nat;
    let it = seq![inner];
    if yields(Expr::Node(Rule::Exponent), s, pos, d2, end, it) {
        or_yields_first(
            Expr::Node(Rule::Exponent),
            Expr::Node(Rule::SignedNumber),
            s,
            pos,
            d2,
            end,
            it,
        );
    } else {
        or_yields_second(
            Expr::Node(Rule::Exponent),
            Expr::Node(Rule::SignedNumber),
            s,
            pos,
            d2,
            end,
            it,
        );
    }
    symbol_refuses(s, end, d2);
    opt_skips(Expr::Node(Rule::SYMBOL), s, end, d2);
    then_yields(
        or(Expr::Node(Rule::Exponent), Expr::Node(Rule::SignedNumber)),
        opt(Expr::Node(Rule::SYMBOL)),
        s,
        pos,
        d2,
        end,
        end,
        it,
        Seq::empty(),
    );
    assert(it + Seq::<Tree>::empty() =~= it);
    node_yields(Rule::Number, s, pos, d1, end, it);
    let nt = seq![node(Rule::Number, pos, end, it)];
    byte_refuses(s, pos, d1);
    or_yields_first(Expr::Node(Rule::Number), data_tail(), s, pos, d1, end, nt);
    or_yields_second(
        Expr::Node(Rule::Byte),
        or(Expr::Node(Rule::Number), data_tail()),
        s,
        pos,
        d1,
        end,
        nt,
    );
    node_yields(Rule::data, s, pos, d, end, nt);
}

/// The `SignedNumber` node of a number with a point: it starts at `pos`,
/// its digits behind the sign at `from`, its point stands at `dot`.
pub open spec fn pointed_tree(pos: usize, from: usize, dot: usize, end: usize) -> Tree {
    let dec = node(
        Rule::Decimal,
        from,
        end,
        seq![node(Rule::Integer, from, dot, Seq::empty())],
    );
    node(
        Rule::SignedNumber,
        pos,
        end,
        if from == pos {
            seq![dec]
        } else {
            seq![sign_tree(pos), dec]
        },
    )
}

/// Rule `SignedNumber` takes a number with a point whole: a `-` or none,
/// digits that start with a `0` only if that is the only one, the point, and
/// digits.
pub proof fn pointed_yields(s: Seq<char>, pos: usize, from: usize, dot: usize, end: usize, d: nat)
    requires
        d >= 3,
        from < dot < end <= s.len() <= usize::MAX,
        from == pos || (from == pos + 1 && s[pos as int] == '-'),
        all_digits(s, from as int, dot as int),
        s[from as int] == '0' ==> dot == from + 1,
        s[from as int] != '0' ==> '1' as u32 <= s[from as int] as u32,
        s[dot as int] == '.',
        all_digits(s, dot + 1, end as int),
        no_digit_at(s, end as int),
    ensures
        yields(
            Expr::Node(Rule::SignedNumber),
            s,
            pos,
            d,
            end,
            seq![pointed_tree(pos, from, dot, end)],
        ),
{
    let d1 = (d - 1) as nat;
    let d2 = (d - 2) as nat;
    let it = seq![node(Rule::Integer, from, dot, Seq::empty())];
    integer_run(s, from, dot, d2);
    char_yields('.', s, dot, d2);
    let after = (dot + 1) as usize;
    then_yields(Expr::Node(Rule::Integer), Expr::Char('.'), s, from, d2, dot, after, it, Seq::empty());
    assert(it + Seq::<Tree>::empty() =~= it);
    digits_run(s, after, end, d2);
    then_yields(
        then(Expr::Node(Rule::Integer), Expr::Char('.')),
        digits(),
        s,
        from,
        d2,
        after,
        end,
        it,
        Seq::empty(),
    );
    node_yields(Rule::Decimal, s, from, d1, end, it);
    let dec = seq![node(Rule::Decimal, from, end, it)];
    let body = or(
        Expr::Node(Rule::Decimal),
        or(Expr::Node(Rule::DecimalBad), Expr::Node(Rule::Integer)),
    );
    or_yields_first(
        Expr::Node(Rule::Decimal),
        or(Expr::Node(Rule::DecimalBad), Expr::Node(Rule::Integer)),
        s,
        from,
        d1,
        end,
        dec,
    );
    assert(is_digit(s[from as int]));
    if from == pos {
        sign_refuses(s, pos, d1);
        then_yields(opt(Expr::Node(Rule::Sign)), body, s, pos, d1, pos, end, Seq::empty(), dec);
        assert(Seq::<Tree>::empty() + dec =~= dec);
        node_yields(Rule::SignedNumber, s, pos, d, end, dec);
    } else {
        minus_yields(s, pos, d1);
        then_yields(
            opt(Expr::Node(Rule::Sign)),
            body,
            s,
            pos,
            d1,
            from,
            end,
            seq![sign_tree(pos)],
            dec,
        );
        assert(seq![sign_tree(pos)] + dec =~= seq![sign_tree(pos), dec[0]]);
        node_yields(Rule::SignedNumber, s, pos, d, end, seq![sign_tree(pos), dec[0]]);
    }
}

/// The builder reads the sign, the digits and the places of the
/// `SignedNumber` node of a number with a point.
pub proof fn pointed_parts(
    s: Seq<char>,
    pos: usize,
    from: usize,
    dot: usize,
    end: usize,
    c: nat,
    k: nat,
)
    requires
        from < dot < end <= s.len() <= usize::MAX,
        from == pos || (from == pos + 1 && s[pos as int] == '-'),
        from == pos ==> s[pos as int] != '-',
        radix_fold(
            0,
            s.subrange(from as int, dot as int) + s.subrange(dot + 1, end as int),
            10,
        ) == c,
        c <= u64::MAX,
        digit_count(s.subrange(dot + 1, end as int)) == k,
        k <= i32::MAX,
    ensures
        crate::scalar::signed_parts(pointed_tree(pos, from, dot, end), s) == Ok::<
            Parts,
            LiteralError,
        >(
            Parts {
                negative: from != pos,
                magnitude: c as u64,
                exponent: (-(k as int)) as i32,
                float: true,
            },
        ),
{
    let dec = node(Rule::Decimal, from, end, seq![node(Rule::Integer, from, dot, Seq::empty())]);
    let whole = s.subrange(from as int, dot as int);
    let places = s.subrange(dot + 1, end as int);
    radix_fold_concat(0, whole, places, 10);
    assert(crate::scalar::point_of(dec) == dot);
    assert(crate::scalar::decimal_parts(dec, s) == Ok::<(u64, i32), LiteralError>(
        (c as u64, (-(k as int)) as i32),
    ));
    let t = pointed_tree(pos, from, dot, end);
    if from != pos {
        assert(crate::scalar::sign_at(t, 0, s));
    }
}

/// A run of digits holds as many digits as characters.
pub proof fn count_of_digits(t: Seq<char>)
    requires
        all_digits(t, 0, t.len() as int),
    ensures
        digit_count(t) == t.len(),
    decreases t.len(),
{
    if t.len() > 0 {
        assert(is_digit(t[0]));
        assert forall|i: int| 0 <= i < t.drop_first().len() implies is_digit(
            #[trigger] t.drop_first()[i],
        ) by {
            assert(is_digit(t[i + 1]));
        }
        count_of_digits(t.drop_first());
    }
}

/// Zeros before the digits of a number do not change what is read.
pub proof fn radix_of_zeros(j: nat, t: Seq<char>)
    ensures
        radix_fold(0, zeros(j) + t, 10) == radix_fold(0, t, 10),
    decreases j,
{
    if j == 0 {
        assert(zeros(0) + t =~= t);
    } else {
        let all = zeros(j) + t;
        assert(all[0] == '0');
        assert(all.drop_first() =~= zeros((j - 1) as nat) + t);
        assert(radix_step(0, '0', 10) == 0);
        radix_of_zeros((j - 1) as nat, t);
    }
}

/// The `Exponent` node of digits, `e` and an exponent at `pos`.
pub open spec fn exponent_tree(pos: usize, negative: bool, c: nat, exp: int) -> Tree {
    let mark = (pos + integer_text(negative, c).len()) as usize;
    let end = (mark + 1 + int_text(exp).len()) as usize;
    node(
        Rule::Exponent,
        pos,
        end,
        if exp < 0 {
            seq![signed_tree(pos, negative, c), sign_tree((mark + 1) as usize)]
        } else {
            seq![signed_tree(pos, negative, c)]
        },
    )
}

/// The text of digits, `e` and an exponent.
pub open spec fn exponent_text(negative: bool, c: nat, exp: int) -> Seq<char> {
    integer_text(negative, c) + seq!['e'] + int_text(exp)
}

/// Rule `Exponent` takes digits, `e` and an exponent whole where a value is
/// closed behind them.
pub proof fn exponent_yields(s: Seq<char>, pos: usize, negative: bool, c: nat, exp: int, d: nat)
    requires
        d >= 4,
        s.len() <= usize::MAX,
        has_at(s, pos, exponent_text(negative, c, exp)),
        closes(s, pos + exponent_text(negative, c, exp).len()),
    ensures
        yields(
            Expr::Node(Rule::Exponent),
            s,
            pos,
            d,
            (pos + exponent_text(negative, c, exp).len()) as usize,
            seq![exponent_tree(pos, negative, c, exp)],
        ),
{
    let d1 = (d - 1) as nat;
    let head = integer_text(negative, c);
    let tail = int_text(exp);
    let all = exponent_text(negative, c, exp);
    let mark = (pos + head.len()) as usize;
    let end = (pos + all.len()) as usize;
    let magnitude = if exp < 0 {
        (-exp) as nat
    } else {
        exp as nat
    };
    let ds = digits_of(magnitude);
    let from = if exp < 0 {
        (mark + 2) as usize
    } else {
        (mark + 1) as usize
    };
    digits_facts(c);
    digits_facts(magnitude);
    assert(all.subrange(0, head.len() as int) =~= head);
    part_at(s, pos, all, 0, head);
    char_at(s, pos, all, head.len() as int);
    assert(s[mark as int] == 'e');
    assert(all.subrange(all.len() - ds.len(), all.len() as int) =~= ds);
    part_at(s, pos, all, all.len() - ds.len(), ds);
    assert forall|i: int| from <= i < end implies is_digit(#[trigger] s[i]) by {
        assert(s.subrange(from as int, end as int)[i - from] == ds[i - from]);
        assert(is_digit(ds[i - from]));
    }
    signed_yields(s, pos, negative, c, d1);
    let st = seq![signed_tree(pos, negative, c)];
    let marks = or(Expr::Char('e'), or(Expr::Char('E'), Expr::Lit("**")));
    char_yields('e', s, mark, d1);
    or_yields_first(
        Expr::Char('e'),
        or(Expr::Char('E'), Expr::Lit("**")),
        s,
        mark,
        d1,
        (mark + 1) as usize,
        Seq::empty(),
    );
    let e1 = then(Expr::Node(Rule::SignedNumber), marks);
    then_yields(
        Expr::Node(Rule::SignedNumber),
        marks,
        s,
        pos,
        d1,
        mark,
        (mark + 1) as usize,
        st,
        Seq::empty(),
    );
    assert(st + Seq::<Tree>::empty() =~= st);
    let e2 = then(e1, opt(Expr::Node(Rule::Sign)));
    let kids = if exp < 0 {
        seq![signed_tree(pos, negative, c), sign_tree((mark + 1) as usize)]
    } else {
        st
    };
    if exp < 0 {
        char_at(s, pos, all, (head.len() + 1) as int);
        minus_yields(s, (mark + 1) as usize, d1);
        then_yields(
            e1,
            opt(Expr::Node(Rule::Sign)),
            s,
            pos,
            d1,
            (mark + 1) as usize,
            from,
            st,
            seq![sign_tree((mark + 1) as usize)],
        );
        assert(st + seq![sign_tree((mark + 1) as usize)] =~= kids);
    } else {
        assert(is_digit(s[from as int]));
        sign_refuses(s, from, d1);
        then_yields(e1, opt(Expr::Node(Rule::Sign)), s, pos, d1, from, from, st, Seq::empty());
    }
    assert(is_digit(s[from as int]));
    range_yields('0', '9', s, from, d1);
    let e3 = then(e2, digit());
    then_yields(e2, digit(), s, pos, d1, from, (from + 1) as usize, kids, Seq::empty());
    assert(kids + Seq::<Tree>::empty() =~= kids);
    assert forall|i: usize| from + 1 <= i < end implies #[trigger] yields(
        digit(),
        s,
        i,
        d1,
        (i + 1) as usize,
        Seq::empty(),
    ) by {
        assert(is_digit(s[i as int]));
        range_yields('0', '9', s, i, d1);
    }
    range_refuses('0', '9', s, end, d1);
    star_run(digit(), s, (from + 1) as usize, end, d1);
    then_yields(e3, star(digit()), s, pos, d1, (from + 1) as usize, end, kids, Seq::empty());
    node_yields(Rule::Exponent, s, pos, d, end, kids);
}

/// The builder reads the sign, the digits and the exponent of the
/// `Exponent` node of digits, `e` and an exponent.
pub proof fn exponent_built(s: Seq<char>, pos: usize, negative: bool, c: nat, exp: int)
    requires
        s.len() <= usize::MAX,
        has_at(s, pos, exponent_text(negative, c, exp)),
        c <= u64::MAX,
        i32::MIN < exp <= i32::MAX,
    ensures
        crate::scalar::exponent_parts(exponent_tree(pos, negative, c, exp), s) == Ok::<
            Parts,
            LiteralError,
        >(Parts { negative, magnitude: c as u64, exponent: exp as i32, float: true }),
{
    let head = integer_text(negative, c);
    let all = exponent_text(negative, c, exp);
    let mark = (pos + head.len()) as usize;
    let end = (pos + all.len()) as usize;
    let magnitude = if exp < 0 {
        (-exp) as nat
    } else {
        exp as nat
    };
    let ds = digits_of(magnitude);
    let from = if exp < 0 {
        (mark + 2) as usize
    } else {
        (mark + 1) as usize
    };
    digits_facts(c);
    digits_facts(magnitude);
    radix_of_digits(magnitude);
    assert(all.subrange(0, head.len() as int) =~= head);
    part_at(s, pos, all, 0, head);
    char_at(s, pos, all, head.len() as int);
    assert(all.subrange(all.len() - ds.len(), all.len() as int) =~= ds);
    part_at(s, pos, all, all.len() - ds.len(), ds);
    assert(s.subrange(from as int, end as int) == ds);
    integer_parts(s, pos, negative, c);
    let t = exponent_tree(pos, negative, c, exp);
    if exp < 0 {
        char_at(s, pos, all, (head.len() + 1) as int);
        assert(crate::scalar::sign_at(t, 1, s));
    }
    assert(crate::scalar::exponent_start(t, s) == from);
}

/// Whether a floating value is written with an exponent.
pub open spec fn with_exponent(x: Decimal) -> bool {
    x.exponent >= 0 || x.exponent < -MAX_PLACES
}

/// Where the digits of the text of a floating value at `pos` start.
pub open spec fn digits_from(pos: usize, x: Decimal) -> usize {
    if x.negative {
        (pos + 1) as usize
    } else {
        pos
    }
}

/// Where the point of the text of a floating value at `pos` stands.
pub open spec fn dot_of(pos: usize, x: Decimal) -> usize {
    let n = digits_of(x.coefficient as nat).len();
    if n > -x.exponent {
        (digits_from(pos, x) + n + x.exponent) as usize
    } else {
        (digits_from(pos, x) + 1) as usize
    }
}

/// The node of rule `Exponent` or `SignedNumber` of the text of a floating
/// value at `pos`.
pub open spec fn float_tree(pos: usize, x: Decimal) -> Tree {
    let end = (pos + number_text(Number::Float(x)).len()) as usize;
    if with_exponent(x) {
        exponent_tree(pos, x.negative, x.coefficient as nat, x.exponent as int)
    } else {
        pointed_tree(pos, digits_from(pos, x), dot_of(pos, x), end)
    }
}

/// The `data` node of the text of a floating value at `pos`.
pub open spec fn float_data(pos: usize, x: Decimal) -> Tree {
    let end = (pos + number_text(Number::Float(x)).len()) as usize;
    node(Rule::data, pos, end, seq![node(Rule::Number, pos, end, seq![float_tree(pos, x)])])
}

/// What holds of the text of a floating value at `pos`: rule `data` takes
/// it whole, and the builder makes the value of its node.
pub open spec fn float_read(s: Seq<char>, pos: usize, x: Decimal, d: nat) -> bool {
    &&& number_text(Number::Float(x)).len() > 0
    &&& pos < s.len()
    &&& is_digit(s[pos as int]) || s[pos as int] == '-'
    &&& yields(
        Expr::Node(Rule::data),
        s,
        pos,
        d,
        (pos + number_text(Number::Float(x)).len()) as usize,
        seq![float_data(pos, x)],
    )
    &&& data_value(float_data(pos, x), s) == Ok::<Val, LiteralError>(Val::Number(Number::Float(x)))
}

/// The builder makes the floating value of a node whose parts it reads as
/// the value's sign, digits and exponent.
proof fn built_of_parts(s: Seq<char>, pos: usize, x: Decimal)
    requires
        (with_exponent(x) && crate::scalar::exponent_parts(float_tree(pos, x), s) == Ok::<
            Parts,
            LiteralError,
        >(
            Parts {
                negative: x.negative,
                magnitude: x.coefficient,
                exponent: x.exponent,
                float: true,
            },
        )) || (!with_exponent(x) && crate::scalar::signed_parts(float_tree(pos, x), s) == Ok::<
            Parts,
            LiteralError,
        >(
            Parts {
                negative: x.negative,
                magnitude: x.coefficient,
                exponent: x.exponent,
                float: true,
            },
        )),
    ensures
        data_value(float_data(pos, x), s) == Ok::<Val, LiteralError>(Val::Number(Number::Float(x))),
{
    let end = (pos + number_text(Number::Float(x)).len()) as usize;
    let nt = node(Rule::Number, pos, end, seq![float_tree(pos, x)]);
    assert(float_tree(pos, x).rule == if with_exponent(x) {
        Rule::Exponent
    } else {
        Rule::SignedNumber
    });
    assert(crate::scalar::number_value(nt, s) == Ok::<Val, LiteralError>(
        Val::Number(Number::Float(x)),
    ));
}

/// The text of a floating value that is written with an exponent is read
/// back.
pub proof fn exponent_reads(s: Seq<char>, pos: usize, x: Decimal, d: nat)
    requires
        d >= 6,
        s.len() <= usize::MAX,
        with_exponent(x),
        x.exponent > i32::MIN,
        has_at(s, pos, number_text(Number::Float(x))),
        closes(s, pos + number_text(Number::Float(x)).len()),
    ensures
        float_read(s, pos, x, d),
{
    let c = x.coefficient as nat;
    let all = number_text(Number::Float(x));
    let end = (pos + all.len()) as usize;
    digits_facts(c);
    assert(all =~= exponent_text(x.negative, c, x.exponent as int));
    char_at(s, pos, all, 0);
    assert(is_digit(digits_of(c)[0]));
    if !x.negative && c == 0 {
        char_at(s, pos, all, 1);
    } else if !x.negative {
        assert(all[0] != '0');
    }
    exponent_yields(s, pos, x.negative, c, x.exponent as int, (d - 2) as nat);
    number_data_yields(s, pos, end, float_tree(pos, x), d);
    exponent_built(s, pos, x.negative, c, x.exponent as int);
    built_of_parts(s, pos, x);
}

/// What holds of the text of a floating value that is written with a point
/// and stands at `pos`: where its digits, its point and its places stand,
/// and what number and how many places they make.
pub open spec fn pointed_laid(s: Seq<char>, pos: usize, x: Decimal) -> bool {
    let end = (pos + number_text(Number::Float(x)).len()) as usize;
    let from = digits_from(pos, x);
    let dot = dot_of(pos, x);
    &&& from < dot < end <= s.len()
    &&& from == pos || (from == pos + 1 && s[pos as int] == '-')
    &&& from == pos ==> s[pos as int] != '-'
    &&& all_digits(s, from as int, dot as int)
    &&& s[from as int] == '0' ==> dot == from + 1
    &&& s[from as int] != '0' ==> '1' as u32 <= s[from as int] as u32
    &&& s[dot as int] == '.'
    &&& all_digits(s, dot + 1, end as int)
    &&& radix_fold(0, s.subrange(from as int, dot as int) + s.subrange(dot + 1, end as int), 10)
        == x.coefficient
    &&& digit_count(s.subrange(dot + 1, end as int)) == -x.exponent
    &&& !byte_start(s, pos as int)
}

/// The digits and the point of a floating value stand behind its sign.
proof fn body_stands(s: Seq<char>, pos: usize, x: Decimal)
    requires
        s.len() <= usize::MAX,
        !with_exponent(x),
        has_at(s, pos, number_text(Number::Float(x))),
    ensures
        has_at(
            s,
            digits_from(pos, x),
            positional(digits_of(x.coefficient as nat), -x.exponent as int),
        ),
        digits_from(pos, x) + positional(digits_of(x.coefficient as nat), -x.exponent as int).len()
            == pos + number_text(Number::Float(x)).len(),
        x.negative ==> s[pos as int] == '-',
{
    let all = number_text(Number::Float(x));
    let body = positional(digits_of(x.coefficient as nat), -x.exponent as int);
    let lead = digits_from(pos, x) - pos;
    digits_facts(x.coefficient as nat);
    assert(all.subrange(lead, all.len() as int) =~= body);
    part_at(s, pos, all, lead, body);
    char_at(s, pos, all, 0);
}

/// A floating value with more digits than places is laid out with the
/// point among its digits.
proof fn split_laid(s: Seq<char>, pos: usize, x: Decimal)
    requires
        s.len() <= usize::MAX,
        !with_exponent(x),
        digits_of(x.coefficient as nat).len() > -x.exponent,
        has_at(s, pos, number_text(Number::Float(x))),
    ensures
        pointed_laid(s, pos, x),
{
    let c = x.coefficient as nat;
    let k = (-x.exponent) as int;
    let ds = digits_of(c);
    let n = ds.len() as int;
    let body = positional(ds, k);
    let end = (pos + number_text(Number::Float(x)).len()) as usize;
    let from = digits_from(pos, x);
    let dot = dot_of(pos, x);
    body_stands(s, pos, x);
    digits_facts(c);
    radix_of_digits(c);
    assert(c > 0) by {
        if c == 0 {
            assert(ds =~= seq!['0']);
        }
    }
    assert(body == ds.subrange(0, n - k) + seq!['.'] + ds.subrange(n - k, n));
    let whole = s.subrange(from as int, dot as int);
    let places = s.subrange(dot + 1, end as int);
    assert forall|j: int| 0 <= j < body.len() implies s[from + j] == body[j] by {
        char_at(s, from, body, j);
    }
    assert(whole =~= ds.subrange(0, n - k)) by {
        assert forall|j: int| 0 <= j < n - k implies whole[j] == ds[j] by {
            assert(s[from + j] == body[j]);
        }
    }
    assert(places =~= ds.subrange(n - k, n)) by {
        assert forall|j: int| 0 <= j < k implies places[j] == ds[n - k + j] by {
            assert(s[from + (n - k + 1 + j)] == body[n - k + 1 + j]);
        }
    }
    assert(whole + places =~= ds);
    assert(s[from + (n - k)] == body[n - k]);
    assert(s[from + 0] == body[0]);
    assert forall|i: int| from <= i < dot implies is_digit(#[trigger] s[i]) by {
        assert(whole[i - from] == s[i]);
        assert(is_digit(ds[i - from]));
    }
    assert forall|i: int| dot + 1 <= i < end implies is_digit(#[trigger] s[i]) by {
        assert(places[i - (dot + 1)] == s[i]);
        assert(is_digit(ds[n - k + (i - (dot + 1))]));
    }
    assert(all_digits(places, 0, places.len() as int)) by {
        assert forall|j: int| 0 <= j < places.len() implies is_digit(#[trigger] places[j]) by {
            assert(is_digit(s[dot + 1 + j]));
        }
    }
    count_of_digits(places);
}

/// A floating value with no more digits than places is laid out as a zero,
/// the point, zeros and its digits.
proof fn padded_laid(s: Seq<char>, pos: usize, x: Decimal)
    requires
        s.len() <= usize::MAX,
        !with_exponent(x),
        digits_of(x.coefficient as nat).len() <= -x.exponent,
        has_at(s, pos, number_text(Number::Float(x))),
    ensures
        pointed_laid(s, pos, x),
{
    let c = x.coefficient as nat;
    let k = (-x.exponent) as int;
    let ds = digits_of(c);
    let n = ds.len() as int;
    let body = positional(ds, k);
    let end = (pos + number_text(Number::Float(x)).len()) as usize;
    let from = digits_from(pos, x);
    let dot = dot_of(pos, x);
    let pad = zeros((k - n) as nat);
    body_stands(s, pos, x);
    digits_facts(c);
    radix_of_digits(c);
    assert(body == seq!['0', '.'] + pad + ds);
    let whole = s.subrange(from as int, dot as int);
    let places = s.subrange(dot + 1, end as int);
    assert forall|j: int| 0 <= j < body.len() implies s[from + j] == body[j] by {
        char_at(s, from, body, j);
    }
    assert(s[from + 0] == body[0]);
    assert(s[from + 1] == body[1]);
    assert(whole =~= seq!['0']);
    assert(places =~= pad + ds) by {
        assert forall|j: int| 0 <= j < k implies places[j] == (pad + ds)[j] by {
            assert(s[from + (2 + j)] == body[2 + j]);
        }
    }
    assert(whole + places =~= zeros(1) + (pad + ds));
    radix_of_zeros(1, pad + ds);
    radix_of_zeros((k - n) as nat, ds);
    assert forall|i: int| from <= i < dot implies is_digit(#[trigger] s[i]) by {
        assert(i == from);
    }
    assert forall|i: int| dot + 1 <= i < end implies is_digit(#[trigger] s[i]) by {
        assert(places[i - (dot + 1)] == s[i]);
        if i - (dot + 1) >= k - n {
            assert(is_digit(ds[i - (dot + 1) - (k - n)]));
        }
    }
    assert(all_digits(places, 0, places.len() as int)) by {
        assert forall|j: int| 0 <= j < places.len() implies is_digit(#[trigger] places[j]) by {
            assert(is_digit(s[dot + 1 + j]));
        }
    }
    count_of_digits(places);
}

/// The text of a floating value that is written with a point is read back.
pub proof fn pointed_reads(s: Seq<char>, pos: usize, x: Decimal, d: nat)
    requires
        d >= 6,
        s.len() <= usize::MAX,
        !with_exponent(x),
        has_at(s, pos, number_text(Number::Float(x))),
        closes(s, pos + number_text(Number::Float(x)).len()),
    ensures
        float_read(s, pos, x, d),
{
    let end = (pos + number_text(Number::Float(x)).len()) as usize;
    let from = digits_from(pos, x);
    let dot = dot_of(pos, x);
    if digits_of(x.coefficient as nat).len() > -x.exponent {
        split_laid(s, pos, x);
    } else {
        padded_laid(s, pos, x);
    }
    assert(is_digit(s[from as int]));
    pointed_yields(s, pos, from, dot, end, (d - 2) as nat);
    pointed_yields(s, pos, from, dot, end, (d - 3) as nat);
    exponent_refuses(s, pos, end, float_tree(pos, x), (d - 2) as nat);
    number_data_yields(s, pos, end, float_tree(pos, x), d);
    pointed_parts(s, pos, from, dot, end, x.coefficient as nat, (-x.exponent) as nat);
    built_of_parts(s, pos, x);
}

} // verus!
