//! How the grammar reads a dictionary literal whose keys are plain words
//! and whose values it can read, and what the builder makes of it.

use vstd::prelude::*;
use crate::laws::blanks::{
    blank_at, comma_yields, dict_rest, pair_refuses, separator_refuses, skip_blanks, solid_at,
};
use crate::builder::{data_value, dict_value, pair_parts, pairs_into};
use crate::document::{set_at, Change};
use crate::grammar::{grammar, opt, or, pair_item, skip, star, then};
use crate::laws::lists::starts_value;
use crate::laws::matches::{
    char_refuses, char_yields, class_refuses, class_yields, inline_yields, node, node_yields,
    opt_skips, opt_yields, or_refuses, or_yields_first, or_yields_second, refuses, star_steps,
    star_stops, then_refuses_first, then_refuses_second, then_yields, yields,
};
use crate::laws::numerals::star_run;
use crate::peg::{is_digit, is_letter, CharClass, Expr, Tree};
use crate::rule::Rule;
use crate::scalar::LiteralError;
use crate::value::{keys_of, put, put_next, PathStep, Val};
use crate::laws::words::quotes_refuse;

verus! {

/// Whether a character may stand in a plain key: an ASCII letter, a digit
/// or `_`.
pub open spec fn key_char(c: char) -> bool {
    (c as u32) < 0x80 && (is_letter(c) || is_digit(c) || c == '_')
}

/// Whether a key is a plain word: ASCII letters, digits and `_`, the first
/// of them no digit.
pub open spec fn plain_key(k: Seq<char>) -> bool {
    &&& k.len() > 0
    &&& !is_digit(k[0])
    &&& forall|i: int| 0 <= i < k.len() ==> key_char(#[trigger] k[i])
}

/// Whether the characters `from..to` are spaces and line feeds.
pub open spec fn blanks(s: Seq<char>, from: int, to: int) -> bool {
    from <= to && forall|i: int| from <= i < to ==> blank_at(s, i)
}

/// Whether the text holds a plain key from `ks` to `ke`, a `:`, white space
/// up to `vs` and something up to `ve` that starts like a value.
pub open spec fn pair_laid(s: Seq<char>, ks: usize, ke: usize, vs: usize, ve: usize) -> bool {
    &&& ks < ke < vs < ve < s.len()
    &&& plain_key(s.subrange(ks as int, ke as int))
    &&& s[ke as int] == ':'
    &&& blanks(s, ke + 1, vs as int)
    &&& starts_value(s, vs as int)
}

/// Whether the text holds, from `pos` on, a `{`, then pairs with a comma
/// between neighbours, then a `}` at `close`, with white space before each
/// key and, behind a comma that follows the last pair, before the `}`.
pub open spec fn dict_laid(
    s: Seq<char>,
    pos: usize,
    ks: Seq<usize>,
    ke: Seq<usize>,
    vs: Seq<usize>,
    ve: Seq<usize>,
    close: usize,
) -> bool {
    let n = ks.len() as int;
    &&& n >= 1
    &&& ke.len() == n && vs.len() == n && ve.len() == n
    &&& s.len() <= usize::MAX
    &&& pos < s.len()
    &&& s[pos as int] == '{'
    &&& blanks(s, pos + 1, ks[0] as int)
    &&& forall|i: int| 0 <= i < n ==> pair_laid(s, #[trigger] ks[i], ke[i], vs[i], ve[i])
    &&& forall|i: int|
        0 <= i < n - 1 ==> s[(#[trigger] ve[i]) as int] == ',' && blanks(
            s,
            ve[i] + 1,
            ks[i + 1] as int,
        )
    &&& ve[n - 1] <= close < s.len()
    &&& s[close as int] == '}'
    &&& close == ve[n - 1] || (s[ve[n - 1] as int] == ',' && blanks(s, ve[n - 1] + 1, close as int))
}

/// Whether rule `data` reads each value of a laid-out dictionary as the node
/// `t[i]`.
pub open spec fn values_read(
    s: Seq<char>,
    vs: Seq<usize>,
    ve: Seq<usize>,
    t: Seq<Tree>,
    d: nat,
) -> bool {
    &&& t.len() == vs.len()
    &&& forall|i: int|
        0 <= i < vs.len() ==> #[trigger] yields(
            Expr::Node(Rule::data),
            s,
            vs[i],
            d,
            ve[i],
            seq![t[i]],
        )
}

/// The `namespace` node of a plain key from `ks` to `ke`.
pub open spec fn key_tree(ks: usize, ke: usize) -> Tree {
    node(
        Rule::namespace,
        ks,
        ke,
        seq![node(Rule::Key, ks, ke, seq![node(Rule::SYMBOL, ks, ke, Seq::empty())])],
    )
}

/// The `dict_pair` node of a plain key from `ks` to `ke` and a value node
/// `t` that ends at `ve`.
pub open spec fn pair_tree(ks: usize, ke: usize, ve: usize, t: Tree) -> Tree {
    node(Rule::dict_pair, ks, ve, seq![key_tree(ks, ke), t])
}

/// The `dict_pair` nodes of a laid-out dictionary.
pub open spec fn pair_trees(ks: Seq<usize>, ke: Seq<usize>, ve: Seq<usize>, t: Seq<Tree>) -> Seq<
    Tree,
> {
    Seq::new(ks.len(), |i: int| pair_tree(ks[i], ke[i], ve[i], t[i]))
}

/// Rule `namespace` takes a plain key whole where a `:` follows.
pub proof fn key_yields(s: Seq<char>, ks: usize, ke: usize, d: nat)
    requires
        d >= 3,
        s.len() <= usize::MAX,
        ks < ke < s.len(),
        plain_key(s.subrange(ks as int, ke as int)),
        s[ke as int] == ':',
    ensures
        yields(Expr::Node(Rule::namespace), s, ks, d, ke, seq![key_tree(ks, ke)]),
{
    let d1 = (d - 1) as nat;
    let d2 = (d - 2) as nat;
    let d3 = (d - 3) as nat;
    let k = s.subrange(ks as int, ke as int);
    assert forall|i: int| ks <= i < ke implies key_char(#[trigger] s[i]) by {
        assert(key_char(k[i - ks]));
    }
    assert(s[ks as int] == k[0]);
    assert(key_char(s[ks as int]));
    // SYMBOL
    let head = or(Expr::Class(CharClass::XidStart), Expr::Char('_'));
    let more = or(Expr::Class(CharClass::XidContinue), Expr::Char('_'));
    let next = (ks + 1) as usize;
    if is_letter(s[ks as int]) {
        class_yields(CharClass::XidStart, s, ks, d3);
        or_yields_first(
            Expr::Class(CharClass::XidStart),
            Expr::Char('_'),
            s,
            ks,
            d3,
            next,
            Seq::empty(),
        );
    } else {
        class_refuses(CharClass::XidStart, s, ks, d3);
        char_yields('_', s, ks, d3);
        or_yields_second(
            Expr::Class(CharClass::XidStart),
            Expr::Char('_'),
            s,
            ks,
            d3,
            next,
            Seq::empty(),
        );
    }
    assert forall|i: usize| next <= i < ke implies #[trigger] yields(
        more,
        s,
        i,
        d3,
        (i + 1) as usize,
        Seq::empty(),
    ) by {
        assert(key_char(s[i as int]));
        class_yields(CharClass::XidContinue, s, i, d3);
        or_yields_first(
            Expr::Class(CharClass::XidContinue),
            Expr::Char('_'),
            s,
            i,
            d3,
            (i + 1) as usize,
            Seq::empty(),
        );
    }
    class_refuses(CharClass::XidContinue, s, ke, d3);
    char_refuses('_', s, ke, d3);
    or_refuses(Expr::Class(CharClass::XidContinue), Expr::Char('_'), s, ke, d3);
    star_run(more, s, next, ke, d3);
    then_yields(head, star(more), s, ks, d3, next, ke, Seq::empty(), Seq::empty());
    assert(Seq::<Tree>::empty() + Seq::<Tree>::empty() =~= Seq::<Tree>::empty());
    node_yields(Rule::SYMBOL, s, ks, d2, ke, Seq::empty());
    let sym = seq![node(Rule::SYMBOL, ks, ke, Seq::empty())];
    // Key
    quotes_refuse(s, ks, d2);
    or_yields_first(Expr::Node(Rule::SYMBOL), Expr::Node(Rule::Integer), s, ks, d2, ke, sym);
    or_yields_second(
        Expr::Node(Rule::StringNormal),
        or(Expr::Node(Rule::SYMBOL), Expr::Node(Rule::Integer)),
        s,
        ks,
        d2,
        ke,
        sym,
    );
    node_yields(Rule::Key, s, ks, d1, ke, sym);
    let key = seq![node(Rule::Key, ks, ke, sym)];
    // namespace
    char_refuses('.', s, ke, d1);
    then_refuses_first(Expr::Char('.'), Expr::Node(Rule::Key), s, ke, d1);
    star_stops(then(Expr::Char('.'), Expr::Node(Rule::Key)), s, ke, d1);
    then_yields(
        Expr::Node(Rule::Key),
        star(then(Expr::Char('.'), Expr::Node(Rule::Key))),
        s,
        ks,
        d1,
        ke,
        ke,
        key,
        Seq::empty(),
    );
    assert(key + Seq::<Tree>::empty() =~= key);
    node_yields(Rule::namespace, s, ks, d, ke, key);
}

/// Rule `dict_pair` takes a laid-out pair whole where rule `data` reads its
/// value.
pub proof fn pair_yields(
    s: Seq<char>,
    ks: usize,
    ke: usize,
    vs: usize,
    ve: usize,
    t: Tree,
    d: nat,
)
    requires
        d >= 4,
        s.len() <= usize::MAX,
        pair_laid(s, ks, ke, vs, ve),
        yields(Expr::Node(Rule::data), s, vs, (d - 1) as nat, ve, seq![t]),
    ensures
        yields(Expr::Node(Rule::dict_pair), s, ks, d, ve, seq![pair_tree(ks, ke, ve, t)]),
{
    let d1 = (d - 1) as nat;
    let d2 = (d - 2) as nat;
    let after = (ke + 1) as usize;
    let kt = seq![key_tree(ks, ke)];
    key_yields(s, ks, ke, d1);
    skip_blanks(s, ke, ke, d1);
    let e1 = then(Expr::Node(Rule::namespace), skip());
    then_yields(Expr::Node(Rule::namespace), skip(), s, ks, d1, ke, ke, kt, Seq::empty());
    assert(kt + Seq::<Tree>::empty() =~= kt);
    char_refuses('=', s, ke, d2);
    char_yields(':', s, ke, d2);
    or_yields_second(Expr::Char('='), Expr::Char(':'), s, ke, d2, after, Seq::empty());
    inline_yields(Rule::Assign, s, ke, d1, after, Seq::empty());
    let e2 = then(e1, Expr::Inline(Rule::Assign));
    then_yields(e1, Expr::Inline(Rule::Assign), s, ks, d1, ke, after, kt, Seq::empty());
    assert(forall|i: int| after <= i < vs ==> blank_at(s, i));
    assert(solid_at(s, vs as int));
    skip_blanks(s, after, vs, d1);
    let e3 = then(e2, skip());
    then_yields(e2, skip(), s, ks, d1, after, vs, kt, Seq::empty());
    then_yields(e3, Expr::Node(Rule::data), s, ks, d1, vs, ve, kt, seq![t]);
    assert(kt + seq![t] =~= seq![key_tree(ks, ke), t]);
    node_yields(Rule::dict_pair, s, ks, d, ve, seq![key_tree(ks, ke), t]);
}

/// Rule `dict_pair` takes pair `i` of a laid-out dictionary whole.
proof fn pair_at(
    s: Seq<char>,
    pos: usize,
    ks: Seq<usize>,
    ke: Seq<usize>,
    vs: Seq<usize>,
    ve: Seq<usize>,
    close: usize,
    t: Seq<Tree>,
    d: nat,
    i: int,
)
    requires
        d >= 5,
        dict_laid(s, pos, ks, ke, vs, ve, close),
        values_read(s, vs, ve, t, (d - 1) as nat),
        0 <= i < ks.len(),
    ensures
        yields(
            Expr::Node(Rule::dict_pair),
            s,
            ks[i],
            d,
            ve[i],
            seq![pair_trees(ks, ke, ve, t)[i]],
        ),
        pair_laid(s, ks[i], ke[i], vs[i], ve[i]),
        key_char(s[ks[i] as int]),
        !is_digit(s[ks[i] as int]),
{
    assert(pair_laid(s, ks[i], ke[i], vs[i], ve[i]));
    assert(yields(Expr::Node(Rule::data), s, vs[i], (d - 1) as nat, ve[i], seq![t[i]]));
    pair_yields(s, ks[i], ke[i], vs[i], ve[i], t[i], d);
    let k = s.subrange(ks[i] as int, ke[i] as int);
    assert(k[0] == s[ks[i] as int]);
    assert(key_char(k[0]));
}

/// The first pair of a laid-out dictionary is taken as an item.
proof fn first_pair(
    s: Seq<char>,
    pos: usize,
    ks: Seq<usize>,
    ke: Seq<usize>,
    vs: Seq<usize>,
    ve: Seq<usize>,
    close: usize,
    t: Seq<Tree>,
    d: nat,
)
    requires
        d >= 5,
        dict_laid(s, pos, ks, ke, vs, ve, close),
        values_read(s, vs, ve, t, (d - 1) as nat),
    ensures
        yields(pair_item(), s, ks[0], d, ve[0], seq![pair_trees(ks, ke, ve, t)[0]]),
{
    let p = ks[0];
    let pt = seq![pair_trees(ks, ke, ve, t)[0]];
    pair_at(s, pos, ks, ke, vs, ve, close, t, d, 0);
    separator_refuses(s, p, d);
    skip_blanks(s, p, p, d);
    let sep = opt(Expr::Inline(Rule::SEPARATOR));
    then_yields(sep, skip(), s, p, d, p, p, Seq::empty(), Seq::empty());
    assert(Seq::<Tree>::empty() + Seq::<Tree>::empty() =~= Seq::<Tree>::empty());
    then_yields(
        then(sep, skip()),
        Expr::Node(Rule::dict_pair),
        s,
        p,
        d,
        p,
        ve[0],
        Seq::empty(),
        pt,
    );
    assert(Seq::<Tree>::empty() + pt =~= pt);
}

/// Pair `i` of a laid-out dictionary is taken as an item behind the pair
/// before it.
proof fn next_pair(
    s: Seq<char>,
    pos: usize,
    ks: Seq<usize>,
    ke: Seq<usize>,
    vs: Seq<usize>,
    ve: Seq<usize>,
    close: usize,
    t: Seq<Tree>,
    d: nat,
    i: int,
)
    requires
        d >= 5,
        dict_laid(s, pos, ks, ke, vs, ve, close),
        values_read(s, vs, ve, t, (d - 1) as nat),
        1 <= i < ks.len(),
    ensures
        yields(pair_item(), s, ve[i - 1], d, ve[i], seq![pair_trees(ks, ke, ve, t)[i]]),
        yields(
            then(skip(), pair_item()),
            s,
            ve[i - 1],
            d,
            ve[i],
            seq![pair_trees(ks, ke, ve, t)[i]],
        ),
{
    let from = ve[i - 1];
    let p = ks[i];
    let pt = seq![pair_trees(ks, ke, ve, t)[i]];
    pair_at(s, pos, ks, ke, vs, ve, close, t, d, i);
    pair_at(s, pos, ks, ke, vs, ve, close, t, d, i - 1);
    assert(s[from as int] == ',' && blanks(s, from + 1, p as int));
    comma_yields(s, from, d);
    skip_blanks(s, (from + 1) as usize, p, d);
    let sep = opt(Expr::Inline(Rule::SEPARATOR));
    then_yields(sep, skip(), s, from, d, (from + 1) as usize, p, Seq::empty(), Seq::empty());
    assert(Seq::<Tree>::empty() + Seq::<Tree>::empty() =~= Seq::<Tree>::empty());
    then_yields(
        then(sep, skip()),
        Expr::Node(Rule::dict_pair),
        s,
        from,
        d,
        p,
        ve[i],
        Seq::empty(),
        pt,
    );
    assert(Seq::<Tree>::empty() + pt =~= pt);
    skip_blanks(s, from, from, d);
    then_yields(skip(), pair_item(), s, from, d, from, ve[i], Seq::empty(), pt);
}

/// No item follows the last pair of a laid-out dictionary.
proof fn no_pair(s: Seq<char>, last: usize, close: usize, d: nat)
    requires
        d >= 5,
        last <= close < s.len() <= usize::MAX,
        s[close as int] == '}',
        close == last || (s[last as int] == ',' && blanks(s, last + 1, close as int)),
    ensures
        refuses(pair_item(), s, last, d),
        refuses(then(skip(), pair_item()), s, last, d),
{
    let sep = opt(Expr::Inline(Rule::SEPARATOR));
    if close == last {
        separator_refuses(s, last, d);
        skip_blanks(s, last, last, d);
        then_yields(sep, skip(), s, last, d, last, last, Seq::empty(), Seq::empty());
    } else {
        comma_yields(s, last, d);
        skip_blanks(s, (last + 1) as usize, close, d);
        then_yields(
            sep,
            skip(),
            s,
            last,
            d,
            (last + 1) as usize,
            close,
            Seq::empty(),
            Seq::empty(),
        );
    }
    pair_refuses(s, close, d);
    then_refuses_second(
        then(sep, skip()),
        Expr::Node(Rule::dict_pair),
        s,
        last,
        d,
        close,
        Seq::<Tree>::empty() + Seq::<Tree>::empty(),
    );
    skip_blanks(s, last, last, d);
    then_refuses_second(skip(), pair_item(), s, last, d, last, Seq::empty());
}

/// The pairs behind pair `i` of a laid-out dictionary are taken one after
/// the other.
proof fn more_pairs(
    s: Seq<char>,
    pos: usize,
    ks: Seq<usize>,
    ke: Seq<usize>,
    vs: Seq<usize>,
    ve: Seq<usize>,
    close: usize,
    t: Seq<Tree>,
    d: nat,
    i: int,
)
    requires
        d >= 5,
        dict_laid(s, pos, ks, ke, vs, ve, close),
        values_read(s, vs, ve, t, (d - 1) as nat),
        0 <= i < ks.len(),
    ensures
        yields(
            star(then(skip(), pair_item())),
            s,
            ve[i],
            d,
            ve[ks.len() - 1],
            pair_trees(ks, ke, ve, t).subrange(i + 1, ks.len() as int),
        ),
    decreases ks.len() - i,
{
    let n = ks.len() as int;
    let step = then(skip(), pair_item());
    let all = pair_trees(ks, ke, ve, t);
    if i == n - 1 {
        no_pair(s, ve[i], close, d);
        star_stops(step, s, ve[i], d);
        assert(all.subrange(i + 1, n) =~= Seq::<Tree>::empty());
    } else {
        next_pair(s, pos, ks, ke, vs, ve, close, t, d, i + 1);
        more_pairs(s, pos, ks, ke, vs, ve, close, t, d, i + 1);
        pair_at(s, pos, ks, ke, vs, ve, close, t, d, i + 1);
        pair_at(s, pos, ks, ke, vs, ve, close, t, d, i);
        assert(blanks(s, ve[i] + 1, ks[i + 1] as int));
        star_steps(step, s, ve[i], d, ve[i + 1], ve[n - 1], seq![all[i + 1]], all.subrange(i + 2, n));
        assert(seq![all[i + 1]] + all.subrange(i + 2, n) =~= all.subrange(i + 1, n));
    }
}

/// The `dict_literal` node from `pos` to `end` with the nodes `t` inside.
pub open spec fn dict_tree(pos: usize, end: usize, t: Seq<Tree>) -> Tree {
    node(Rule::dict_literal, pos, end, t)
}

/// Rule `dict_literal` takes a laid-out dictionary whole where rule `data`
/// reads its values.
pub proof fn dict_yields(
    s: Seq<char>,
    pos: usize,
    ks: Seq<usize>,
    ke: Seq<usize>,
    vs: Seq<usize>,
    ve: Seq<usize>,
    close: usize,
    t: Seq<Tree>,
    d: nat,
)
    requires
        d >= 6,
        dict_laid(s, pos, ks, ke, vs, ve, close),
        values_read(s, vs, ve, t, (d - 2) as nat),
    ensures
        yields(
            Expr::Node(Rule::dict_literal),
            s,
            pos,
            d,
            (close + 1) as usize,
            seq![dict_tree(pos, (close + 1) as usize, pair_trees(ks, ke, ve, t))],
        ),
{
    let n = ks.len() as int;
    let d1 = (d - 1) as nat;
    let end = (close + 1) as usize;
    let first = ks[0];
    let last = ve[n - 1];
    let all = pair_trees(ks, ke, ve, t);
    let sep = opt(Expr::Inline(Rule::SEPARATOR));
    let more = then(pair_item(), star(then(skip(), pair_item())));
    pair_at(s, pos, ks, ke, vs, ve, close, t, d1, 0);
    pair_at(s, pos, ks, ke, vs, ve, close, t, d1, n - 1);
    first_pair(s, pos, ks, ke, vs, ve, close, t, d1);
    assert(solid_at(s, ve[0] as int)) by {
        if n > 1 {
            assert(s[ve[0] as int] == ',');
        }
    }
    skip_blanks(s, ve[0], ve[0], d1);
    let e1 = then(pair_item(), skip());
    then_yields(pair_item(), skip(), s, first, d1, ve[0], ve[0], seq![all[0]], Seq::empty());
    assert(seq![all[0]] + Seq::<Tree>::empty() =~= seq![all[0]]);
    let e2 = then(e1, opt(more));
    if n == 1 {
        no_pair(s, last, close, d1);
        then_refuses_first(pair_item(), star(then(skip(), pair_item())), s, last, d1);
        opt_skips(more, s, last, d1);
        then_yields(e1, opt(more), s, first, d1, last, last, seq![all[0]], Seq::empty());
        assert(seq![all[0]] + Seq::<Tree>::empty() =~= all);
    } else {
        next_pair(s, pos, ks, ke, vs, ve, close, t, d1, 1);
        more_pairs(s, pos, ks, ke, vs, ve, close, t, d1, 1);
        let rest = all.subrange(2, n);
        then_yields(
            pair_item(),
            star(then(skip(), pair_item())),
            s,
            ve[0],
            d1,
            ve[1],
            last,
            seq![all[1]],
            rest,
        );
        opt_yields(more, s, ve[0], d1, last, seq![all[1]] + rest);
        then_yields(e1, opt(more), s, first, d1, ve[0], last, seq![all[0]], seq![all[1]] + rest);
        assert(seq![all[0]] + (seq![all[1]] + rest) =~= all);
    }
    skip_blanks(s, last, last, d1);
    let e3 = then(e2, skip());
    then_yields(e2, skip(), s, first, d1, last, last, all, Seq::empty());
    assert(all + Seq::<Tree>::empty() =~= all);
    let e4 = then(e3, sep);
    let e5 = then(e4, skip());
    if close == last {
        separator_refuses(s, last, d1);
        then_yields(e3, sep, s, first, d1, last, last, all, Seq::empty());
        then_yields(e4, skip(), s, first, d1, last, close, all, Seq::empty());
    } else {
        let next = (last + 1) as usize;
        comma_yields(s, last, d1);
        then_yields(e3, sep, s, first, d1, last, next, all, Seq::empty());
        skip_blanks(s, next, close, d1);
        then_yields(e4, skip(), s, first, d1, next, close, all, Seq::empty());
    }
    char_yields('}', s, close, d1);
    let e6 = then(e5, Expr::Char('}'));
    then_yields(e5, Expr::Char('}'), s, first, d1, close, end, all, Seq::empty());
    char_refuses('}', s, first, d1);
    or_yields_second(Expr::Char('}'), e6, s, first, d1, end, all);
    char_yields('{', s, pos, d1);
    skip_blanks(s, (pos + 1) as usize, first, d1);
    then_yields(
        Expr::Char('{'),
        skip(),
        s,
        pos,
        d1,
        (pos + 1) as usize,
        first,
        Seq::empty(),
        Seq::empty(),
    );
    assert(Seq::<Tree>::empty() + Seq::<Tree>::empty() =~= Seq::<Tree>::empty());
    then_yields(
        then(Expr::Char('{'), skip()),
        dict_rest(),
        s,
        pos,
        d1,
        first,
        end,
        Seq::empty(),
        all,
    );
    assert(Seq::<Tree>::empty() + all =~= all);
    assert(grammar(Rule::dict_literal) == then(then(Expr::Char('{'), skip()), dict_rest()));
    node_yields(Rule::dict_literal, s, pos, d, end, all);
}

/// Rule `dict_literal` takes `{}` whole.
pub proof fn empty_dict_yields(s: Seq<char>, pos: usize, d: nat)
    requires
        d >= 4,
        s.len() <= usize::MAX,
        pos + 1 < s.len(),
        s[pos as int] == '{',
        s[pos + 1] == '}',
    ensures
        yields(
            Expr::Node(Rule::dict_literal),
            s,
            pos,
            d,
            (pos + 2) as usize,
            seq![dict_tree(pos, (pos + 2) as usize, Seq::empty())],
        ),
{
    let d1 = (d - 1) as nat;
    let mid = (pos + 1) as usize;
    let end = (pos + 2) as usize;
    char_yields('{', s, pos, d1);
    skip_blanks(s, mid, mid, d1);
    then_yields(Expr::Char('{'), skip(), s, pos, d1, mid, mid, Seq::empty(), Seq::empty());
    assert(Seq::<Tree>::empty() + Seq::<Tree>::empty() =~= Seq::<Tree>::empty());
    char_yields('}', s, mid, d1);
    match dict_rest() {
        Expr::Or(first, second) => {
            or_yields_first(*first, *second, s, mid, d1, end, Seq::empty());
        },
        _ => {},
    }
    then_yields(
        then(Expr::Char('{'), skip()),
        dict_rest(),
        s,
        pos,
        d1,
        mid,
        end,
        Seq::empty(),
        Seq::empty(),
    );
    assert(grammar(Rule::dict_literal) == then(then(Expr::Char('{'), skip()), dict_rest()));
    node_yields(Rule::dict_literal, s, pos, d, end, Seq::empty());
}

/// The builder makes of the node of a pair with a plain key the key and the
/// value that it makes of the value's node.
pub proof fn pair_built(s: Seq<char>, ks: usize, ke: usize, ve: usize, t: Tree, v: Val)
    requires
        ks <= ke <= s.len(),
        t.rule == Rule::data,
        data_value(t, s) == Ok::<Val, LiteralError>(v),
    ensures
        pair_parts(pair_tree(ks, ke, ve, t), s) == Ok::<(Seq<PathStep>, Val), LiteralError>(
            (seq![PathStep::Key(s.subrange(ks as int, ke as int))], v),
        ),
{
    let key = node(Rule::Key, ks, ke, seq![node(Rule::SYMBOL, ks, ke, Seq::empty())]);
    let ns = key_tree(ks, ke);
    let step = PathStep::Key(s.subrange(ks as int, ke as int));
    assert(crate::scalar::key_step(key, s) == Ok::<PathStep, LiteralError>(step));
    assert(crate::scalar::path_steps(ns, s, 0) == Ok::<Seq<PathStep>, LiteralError>(Seq::empty()));
    assert(crate::scalar::path_steps(ns, s, 1) == Ok::<Seq<PathStep>, LiteralError>(
        Seq::<PathStep>::empty().push(step),
    ));
    assert(Seq::<PathStep>::empty().push(step) =~= seq![step]);
    assert(crate::scalar::path_of(ns, s) == Ok::<Seq<PathStep>, LiteralError>(seq![step]));
}

/// The builder makes of a dictionary node with plain keys that differ the
/// dictionary of the keys and of the values that it makes of the nodes
/// inside.
pub proof fn dict_built(
    s: Seq<char>,
    pos: usize,
    end: usize,
    ks: Seq<usize>,
    ke: Seq<usize>,
    ve: Seq<usize>,
    t: Seq<Tree>,
    entries: Seq<(Seq<char>, Val)>,
)
    requires
        ks.len() == entries.len() && ke.len() == entries.len() && ve.len() == entries.len()
            && t.len() == entries.len(),
        keys_of(entries).no_duplicates(),
        forall|i: int|
            0 <= i < entries.len() ==> (#[trigger] ks[i]) <= ke[i] <= s.len() && s.subrange(
                ks[i] as int,
                ke[i] as int,
            ) == entries[i].0,
        forall|i: int|
            0 <= i < t.len() ==> (#[trigger] t[i]).rule == Rule::data && data_value(t[i], s) == Ok::<
                Val,
                LiteralError,
            >(entries[i].1),
    ensures
        data_value(
            node(Rule::data, pos, end, seq![dict_tree(pos, end, pair_trees(ks, ke, ve, t))]),
            s,
        ) == Ok::<Val, LiteralError>(Val::Dict(entries)),
{
    let dt = dict_tree(pos, end, pair_trees(ks, ke, ve, t));
    pairs_built(s, dt, ks, ke, ve, t, entries, entries.len());
    assert(entries.take(entries.len() as int) =~= entries);
    assert(dict_value(dt, s) == Ok::<Val, LiteralError>(Val::Dict(entries)));
}

/// The builder makes of the first `k` pairs the first `k` entries.
proof fn pairs_built(
    s: Seq<char>,
    dt: Tree,
    ks: Seq<usize>,
    ke: Seq<usize>,
    ve: Seq<usize>,
    t: Seq<Tree>,
    entries: Seq<(Seq<char>, Val)>,
    k: nat,
)
    requires
        dt.children == pair_trees(ks, ke, ve, t),
        ks.len() == entries.len() && ke.len() == entries.len() && ve.len() == entries.len()
            && t.len() == entries.len(),
        k <= entries.len(),
        keys_of(entries).no_duplicates(),
        forall|i: int|
            0 <= i < entries.len() ==> (#[trigger] ks[i]) <= ke[i] <= s.len() && s.subrange(
                ks[i] as int,
                ke[i] as int,
            ) == entries[i].0,
        forall|i: int|
            0 <= i < t.len() ==> (#[trigger] t[i]).rule == Rule::data && data_value(t[i], s) == Ok::<
                Val,
                LiteralError,
            >(entries[i].1),
    ensures
        pairs_into(dt, s, 0, k, Seq::empty(), Seq::empty()) == Ok::<
            Seq<(Seq<char>, Val)>,
            LiteralError,
        >(entries.take(k as int)),
    decreases k,
{
    if k == 0 {
        assert(entries.take(0) =~= Seq::<(Seq<char>, Val)>::empty());
    } else {
        let i = (k - 1) as int;
        pairs_built(s, dt, ks, ke, ve, t, entries, (k - 1) as nat);
        assert(ks[i] <= ke[i] <= s.len());
        assert(t[i].rule == Rule::data);
        pair_built(s, ks[i], ke[i], ve[i], t[i], entries[i].1);
        assert(dt.children[i] == pair_tree(ks[i], ke[i], ve[i], t[i]));
        let before = entries.take(i);
        let path = seq![PathStep::Key(entries[i].0)];
        assert(Seq::<PathStep>::empty() + path =~= path);
        assert(set_at(before, path, 0, Change::Put(entries[i].1)) == put(
            before,
            entries[i].0,
            entries[i].1,
        ));
        put_next(entries, i);
    }
}

} // verus!
