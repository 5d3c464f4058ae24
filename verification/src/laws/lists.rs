//! How the grammar reads a list literal whose values it can read, and what
//! the builder makes of it.

use vstd::prelude::*;
use crate::laws::blanks::{
    cite_refuses, comma_yields, data_refuses, dict_refuses, list_rest, separator_refuses,
    skip_blanks, solid_at,
};
use crate::builder::{data_value, list_value, values_in};
use crate::grammar::{data_item, grammar, opt, or, skip, star, then};
use crate::laws::matches::{
    char_refuses, char_yields, node, node_yields, opt_skips, opt_yields, or_yields_first,
    or_yields_second, refuses, star_steps, star_stops, then_refuses_first, then_refuses_second,
    then_yields, yields,
};
use crate::laws::numerals::{byte_refuses, data_tail};
use crate::peg::{is_digit, Expr, Tree};
use crate::rule::Rule;
use crate::scalar::LiteralError;
use crate::value::Val;
use crate::laws::words::{number_refuses, special_refuses, string_refuses};

verus! {

/// Whether the character at `pos` is one with which the text of a value
/// starts: a digit, a minus sign, a quote, an opening bracket, or the first
/// letter of `true`, `false` or `null`.
pub open spec fn starts_value(s: Seq<char>, pos: int) -> bool {
    pos < s.len() && (is_digit(s[pos]) || s[pos] == '-' || s[pos] == '"' || s[pos] == '['
        || s[pos] == '{' || s[pos] == 't' || s[pos] == 'f' || s[pos] == 'n')
}

/// Whether the text holds, from `pos` on, a `[`, then values from `a[i]` to
/// `b[i]` with `, ` between neighbours, then a `]`.
pub open spec fn list_laid(s: Seq<char>, pos: usize, a: Seq<usize>, b: Seq<usize>) -> bool {
    let n = a.len() as int;
    &&& n >= 1
    &&& b.len() == n
    &&& s.len() <= usize::MAX
    &&& pos < s.len()
    &&& s[pos as int] == '['
    &&& a[0] == pos + 1
    &&& forall|i: int| 0 <= i < n ==> (#[trigger] a[i]) < b[i] < s.len()
    &&& forall|i: int|
        0 <= i < n - 1 ==> s[(#[trigger] b[i]) as int] == ',' && s[b[i] + 1] == ' ' && a[i + 1]
            == b[i] + 2
    &&& s[b[n - 1] as int] == ']'
    &&& forall|i: int| 0 <= i < n ==> starts_value(s, (#[trigger] a[i]) as int)
}

/// Whether rule `data` reads each value of a laid-out list as the node
/// `t[i]`.
pub open spec fn items_read(
    s: Seq<char>,
    a: Seq<usize>,
    b: Seq<usize>,
    t: Seq<Tree>,
    d: nat,
) -> bool {
    &&& t.len() == a.len()
    &&& forall|i: int|
        0 <= i < a.len() ==> #[trigger] yields(Expr::Node(Rule::data), s, a[i], d, b[i], seq![t[i]])
}

/// The first value of a laid-out list is taken as an item.
proof fn first_item(s: Seq<char>, pos: usize, a: Seq<usize>, b: Seq<usize>, t: Seq<Tree>, d: nat)
    requires
        d >= 6,
        list_laid(s, pos, a, b),
        items_read(s, a, b, t, d),
    ensures
        yields(data_item(), s, a[0], d, b[0], seq![t[0]]),
{
    let p = a[0];
    assert(starts_value(s, p as int));
    separator_refuses(s, p, d);
    skip_blanks(s, p, p, d);
    let sep = opt(Expr::Inline(Rule::SEPARATOR));
    then_yields(sep, skip(), s, p, d, p, p, Seq::empty(), Seq::empty());
    assert(Seq::<Tree>::empty() + Seq::<Tree>::empty() =~= Seq::<Tree>::empty());
    assert(yields(Expr::Node(Rule::data), s, a[0], d, b[0], seq![t[0]]));
    then_yields(
        then(sep, skip()),
        Expr::Node(Rule::data),
        s,
        p,
        d,
        p,
        b[0],
        Seq::empty(),
        seq![t[0]],
    );
    assert(Seq::<Tree>::empty() + seq![t[0]] =~= seq![t[0]]);
}

/// Value `i` of a laid-out list is taken as an item behind the value before
/// it.
proof fn next_item(
    s: Seq<char>,
    pos: usize,
    a: Seq<usize>,
    b: Seq<usize>,
    t: Seq<Tree>,
    d: nat,
    i: int,
)
    requires
        d >= 6,
        list_laid(s, pos, a, b),
        items_read(s, a, b, t, d),
        1 <= i < a.len(),
    ensures
        yields(data_item(), s, b[i - 1], d, b[i], seq![t[i]]),
        yields(then(skip(), data_item()), s, b[i - 1], d, b[i], seq![t[i]]),
{
    let from = b[i - 1];
    let p = a[i];
    assert(s[from as int] == ',' && s[from + 1] == ' ' && p == from + 2);
    assert(starts_value(s, p as int));
    assert(a[i] < b[i] < s.len());
    comma_yields(s, from, d);
    skip_blanks(s, (from + 1) as usize, p, d);
    let sep = opt(Expr::Inline(Rule::SEPARATOR));
    then_yields(sep, skip(), s, from, d, (from + 1) as usize, p, Seq::empty(), Seq::empty());
    assert(Seq::<Tree>::empty() + Seq::<Tree>::empty() =~= Seq::<Tree>::empty());
    assert(yields(Expr::Node(Rule::data), s, a[i], d, b[i], seq![t[i]]));
    then_yields(
        then(sep, skip()),
        Expr::Node(Rule::data),
        s,
        from,
        d,
        p,
        b[i],
        Seq::empty(),
        seq![t[i]],
    );
    assert(Seq::<Tree>::empty() + seq![t[i]] =~= seq![t[i]]);
    skip_blanks(s, from, from, d);
    then_yields(skip(), data_item(), s, from, d, from, b[i], Seq::empty(), seq![t[i]]);
}

/// No item stands at the closing bracket of a list.
proof fn no_item(s: Seq<char>, close: usize, d: nat)
    requires
        d >= 6,
        close < s.len() <= usize::MAX,
        s[close as int] == ']',
    ensures
        refuses(data_item(), s, close, d),
        refuses(then(skip(), data_item()), s, close, d),
{
    separator_refuses(s, close, d);
    skip_blanks(s, close, close, d);
    let sep = opt(Expr::Inline(Rule::SEPARATOR));
    then_yields(sep, skip(), s, close, d, close, close, Seq::empty(), Seq::empty());
    data_refuses(s, close, d);
    then_refuses_second(
        then(sep, skip()),
        Expr::Node(Rule::data),
        s,
        close,
        d,
        close,
        Seq::<Tree>::empty() + Seq::<Tree>::empty(),
    );
    then_refuses_second(skip(), data_item(), s, close, d, close, Seq::empty());
}

/// The values behind value `i` of a laid-out list are taken one after the
/// other.
proof fn more_items(
    s: Seq<char>,
    pos: usize,
    a: Seq<usize>,
    b: Seq<usize>,
    t: Seq<Tree>,
    d: nat,
    i: int,
)
    requires
        d >= 6,
        list_laid(s, pos, a, b),
        items_read(s, a, b, t, d),
        0 <= i < a.len(),
    ensures
        yields(
            star(then(skip(), data_item())),
            s,
            b[i],
            d,
            b[a.len() - 1],
            t.subrange(i + 1, t.len() as int),
        ),
    decreases a.len() - i,
{
    let n = a.len() as int;
    let step = then(skip(), data_item());
    assert(a[i] < b[i] < s.len());
    if i == n - 1 {
        no_item(s, b[i], d);
        star_stops(step, s, b[i], d);
        assert(t.subrange(i + 1, t.len() as int) =~= Seq::<Tree>::empty());
    } else {
        next_item(s, pos, a, b, t, d, i + 1);
        more_items(s, pos, a, b, t, d, i + 1);
        assert(a[i + 1] < b[i + 1] < s.len());
        assert(a[i + 1] == b[i] + 2);
        star_steps(
            step,
            s,
            b[i],
            d,
            b[i + 1],
            b[n - 1],
            seq![t[i + 1]],
            t.subrange(i + 2, t.len() as int),
        );
        assert(seq![t[i + 1]] + t.subrange(i + 2, t.len() as int) =~= t.subrange(
            i + 1,
            t.len() as int,
        ));
    }
}

/// The `list_literal` node from `pos` to `end` with the nodes `t` inside.
pub open spec fn list_tree(pos: usize, end: usize, t: Seq<Tree>) -> Tree {
    node(Rule::list_literal, pos, end, t)
}

/// Rule `list_literal` takes a laid-out list whole where rule `data` reads
/// its values.
pub proof fn list_yields(
    s: Seq<char>,
    pos: usize,
    a: Seq<usize>,
    b: Seq<usize>,
    t: Seq<Tree>,
    d: nat,
)
    requires
        d >= 7,
        list_laid(s, pos, a, b),
        items_read(s, a, b, t, (d - 1) as nat),
    ensures
        yields(
            Expr::Node(Rule::list_literal),
            s,
            pos,
            d,
            (b[a.len() - 1] + 1) as usize,
            seq![list_tree(pos, (b[a.len() - 1] + 1) as usize, t)],
        ),
{
    let n = a.len() as int;
    let d1 = (d - 1) as nat;
    let close = b[n - 1];
    let end = (close + 1) as usize;
    let first = a[0];
    let sep = opt(Expr::Inline(Rule::SEPARATOR));
    let more = then(data_item(), star(then(skip(), data_item())));
    assert(a[0] < b[0] < s.len());
    assert(a[n - 1] < b[n - 1] < s.len());
    assert(starts_value(s, first as int));
    first_item(s, pos, a, b, t, d1);
    assert(solid_at(s, b[0] as int)) by {
        if n > 1 {
            assert(s[b[0] as int] == ',');
        }
    }
    skip_blanks(s, b[0], b[0], d1);
    let e1 = then(data_item(), skip());
    then_yields(data_item(), skip(), s, first, d1, b[0], b[0], seq![t[0]], Seq::empty());
    assert(seq![t[0]] + Seq::<Tree>::empty() =~= seq![t[0]]);
    let e2 = then(e1, opt(more));
    if n == 1 {
        no_item(s, close, d1);
        then_refuses_first(data_item(), star(then(skip(), data_item())), s, close, d1);
        opt_skips(more, s, close, d1);
        then_yields(e1, opt(more), s, first, d1, close, close, seq![t[0]], Seq::empty());
        assert(seq![t[0]] + Seq::<Tree>::empty() =~= t);
    } else {
        next_item(s, pos, a, b, t, d1, 1);
        more_items(s, pos, a, b, t, d1, 1);
        let rest = t.subrange(2, t.len() as int);
        then_yields(
            data_item(),
            star(then(skip(), data_item())),
            s,
            b[0],
            d1,
            b[1],
            close,
            seq![t[1]],
            rest,
        );
        opt_yields(more, s, b[0], d1, close, seq![t[1]] + rest);
        then_yields(e1, opt(more), s, first, d1, b[0], close, seq![t[0]], seq![t[1]] + rest);
        assert(seq![t[0]] + (seq![t[1]] + rest) =~= t);
    }
    skip_blanks(s, close, close, d1);
    let e3 = then(e2, skip());
    then_yields(e2, skip(), s, first, d1, close, close, t, Seq::empty());
    assert(t + Seq::<Tree>::empty() =~= t);
    separator_refuses(s, close, d1);
    let e4 = then(e3, sep);
    then_yields(e3, sep, s, first, d1, close, close, t, Seq::empty());
    let e5 = then(e4, skip());
    then_yields(e4, skip(), s, first, d1, close, close, t, Seq::empty());
    char_yields(']', s, close, d1);
    let e6 = then(e5, Expr::Char(']'));
    then_yields(e5, Expr::Char(']'), s, first, d1, close, end, t, Seq::empty());
    char_refuses(']', s, first, d1);
    or_yields_second(Expr::Char(']'), e6, s, first, d1, end, t);
    char_yields('[', s, pos, d1);
    skip_blanks(s, first, first, d1);
    then_yields(Expr::Char('['), skip(), s, pos, d1, first, first, Seq::empty(), Seq::empty());
    assert(Seq::<Tree>::empty() + Seq::<Tree>::empty() =~= Seq::<Tree>::empty());
    then_yields(
        then(Expr::Char('['), skip()),
        list_rest(),
        s,
        pos,
        d1,
        first,
        end,
        Seq::empty(),
        t,
    );
    assert(Seq::<Tree>::empty() + t =~= t);
    assert(grammar(Rule::list_literal) == then(then(Expr::Char('['), skip()), list_rest()));
    node_yields(Rule::list_literal, s, pos, d, end, t);
}

/// Rule `list_literal` takes `[]` whole.
pub proof fn empty_list_yields(s: Seq<char>, pos: usize, d: nat)
    requires
        d >= 4,
        s.len() <= usize::MAX,
        pos + 1 < s.len(),
        s[pos as int] == '[',
        s[pos + 1] == ']',
    ensures
        yields(
            Expr::Node(Rule::list_literal),
            s,
            pos,
            d,
            (pos + 2) as usize,
            seq![list_tree(pos, (pos + 2) as usize, Seq::empty())],
        ),
{
    let d1 = (d - 1) as nat;
    let mid = (pos + 1) as usize;
    let end = (pos + 2) as usize;
    char_yields('[', s, pos, d1);
    skip_blanks(s, mid, mid, d1);
    then_yields(Expr::Char('['), skip(), s, pos, d1, mid, mid, Seq::empty(), Seq::empty());
    assert(Seq::<Tree>::empty() + Seq::<Tree>::empty() =~= Seq::<Tree>::empty());
    char_yields(']', s, mid, d1);
    assert(list_rest() matches Expr::Or(first, second) && *first == Expr::Char(']'));
    match list_rest() {
        Expr::Or(first, second) => {
            or_yields_first(*first, *second, s, mid, d1, end, Seq::empty());
        },
        _ => {},
    }
    then_yields(
        then(Expr::Char('['), skip()),
        list_rest(),
        s,
        pos,
        d1,
        mid,
        end,
        Seq::empty(),
        Seq::empty(),
    );
    assert(grammar(Rule::list_literal) == then(then(Expr::Char('['), skip()), list_rest()));
    node_yields(Rule::list_literal, s, pos, d, end, Seq::empty());
}

/// Rule `data` takes what rule `list_literal` or rule `dict_literal` takes
/// at an opening bracket.
pub proof fn bracket_data_yields(s: Seq<char>, pos: usize, d: nat, end: usize, inner: Tree)
    requires
        d >= 6,
        pos < s.len() <= usize::MAX,
        (s[pos as int] == '[' && yields(
            Expr::Node(Rule::list_literal),
            s,
            pos,
            (d - 1) as nat,
            end,
            seq![inner],
        )) || (s[pos as int] == '{' && yields(
            Expr::Node(Rule::dict_literal),
            s,
            pos,
            (d - 1) as nat,
            end,
            seq![inner],
        )),
    ensures
        yields(Expr::Node(Rule::data), s, pos, d, end, seq![node(Rule::data, pos, end, seq![inner])]),
{
    let d1 = (d - 1) as nat;
    let kids = seq![inner];
    byte_refuses(s, pos, d1);
    number_refuses(s, pos, d1);
    special_refuses(s, pos, d1);
    string_refuses(s, pos, d1);
    cite_refuses(s, pos, d1);
    let e8 = or(Expr::Node(Rule::import_statement), Expr::Node(Rule::InlineString));
    let e7 = or(Expr::Node(Rule::list_literal), e8);
    let e6 = or(Expr::Node(Rule::dict_literal), e7);
    let e5 = or(Expr::Node(Rule::cite_value), e6);
    let e4 = or(Expr::Node(Rule::String), e5);
    if s[pos as int] == '[' {
        dict_refuses(s, pos, d1);
        or_yields_first(Expr::Node(Rule::list_literal), e8, s, pos, d1, end, kids);
        or_yields_second(Expr::Node(Rule::dict_literal), e7, s, pos, d1, end, kids);
    } else {
        or_yields_first(Expr::Node(Rule::dict_literal), e7, s, pos, d1, end, kids);
    }
    or_yields_second(Expr::Node(Rule::cite_value), e6, s, pos, d1, end, kids);
    or_yields_second(Expr::Node(Rule::String), e5, s, pos, d1, end, kids);
    or_yields_second(Expr::Node(Rule::Special), e4, s, pos, d1, end, kids);
    or_yields_second(Expr::Node(Rule::Number), data_tail(), s, pos, d1, end, kids);
    or_yields_second(
        Expr::Node(Rule::Byte),
        or(Expr::Node(Rule::Number), data_tail()),
        s,
        pos,
        d1,
        end,
        kids,
    );
    node_yields(Rule::data, s, pos, d, end, kids);
}

/// The builder makes of a list node the list of the values that it makes of
/// the nodes inside.
pub proof fn list_built(s: Seq<char>, pos: usize, end: usize, t: Seq<Tree>, vals: Seq<Val>)
    requires
        t.len() == vals.len(),
        forall|i: int|
            0 <= i < t.len() ==> (#[trigger] t[i]).rule == Rule::data && data_value(t[i], s) == Ok::<
                Val,
                LiteralError,
            >(vals[i]),
    ensures
        list_value(list_tree(pos, end, t), s) == Ok::<Val, LiteralError>(Val::List(vals)),
        data_value(node(Rule::data, pos, end, seq![list_tree(pos, end, t)]), s) == Ok::<
            Val,
            LiteralError,
        >(Val::List(vals)),
{
    values_built(s, list_tree(pos, end, t), vals, t.len());
    assert(vals.take(t.len() as int) =~= vals);
}

/// The builder makes of the first `k` nodes the first `k` values.
proof fn values_built(s: Seq<char>, l: Tree, vals: Seq<Val>, k: nat)
    requires
        l.children.len() == vals.len(),
        k <= vals.len(),
        forall|i: int|
            0 <= i < l.children.len() ==> (#[trigger] l.children[i]).rule == Rule::data
                && data_value(l.children[i], s) == Ok::<Val, LiteralError>(vals[i]),
    ensures
        values_in(l, s, 0, k) == Ok::<Seq<Val>, LiteralError>(vals.take(k as int)),
    decreases k,
{
    if k == 0 {
        assert(vals.take(0) =~= Seq::<Val>::empty());
    } else {
        values_built(s, l, vals, (k - 1) as nat);
        assert(l.children[k - 1].rule == Rule::data);
        assert(vals.take(k - 1).push(vals[k - 1]) =~= vals.take(k as int));
    }
}

} // verus!
