//! How the grammar reads the three special words and quoted strings, and
//! what the builder makes of them.

use vstd::prelude::*;
use crate::builder::data_value;
use crate::display::{escape, escape_char, quoted};
use crate::grammar::{digit, digits, grammar, opt, or, quoted_char, star, then};
use crate::literal::{unescape, unescape_char};
use crate::laws::matches::{
    any_yields, char_refuses, char_yields, lit_refuses_by_first, lit_yields, node, node_refuses,
    node_yields, not_refuses, not_yields, opt_skips, or_refuses, or_yields_first,
    or_yields_second, refuses, star_steps, star_stops, then_refuses_first, then_refuses_second,
    then_yields, yields,
};
use crate::laws::numerals::{byte_refuses, data_tail, integer_refuses, sign_refuses, symbol_refuses};
use crate::peg::{has_at, is_digit, is_letter, Expr, Tree};
use crate::rule::Rule;
use crate::scalar::LiteralError;
use crate::value::Val;

verus! {

/// Whether a number may start with the character at `pos`.
pub open spec fn number_start(s: Seq<char>, pos: int) -> bool {
    pos < s.len() && (is_digit(s[pos]) || s[pos] == '+' || s[pos] == '-' || s[pos] == '.')
}

/// Rule `Number` fails where no number starts.
pub proof fn number_refuses(s: Seq<char>, pos: usize, d: nat)
    requires
        d >= 5,
        !number_start(s, pos as int),
    ensures
        refuses(Expr::Node(Rule::Number), s, pos, d),
{
    let d1 = (d - 1) as nat;
    let d2 = (d - 2) as nat;
    // SignedNumber at either depth
    signed_refuses(s, pos, d1);
    signed_refuses(s, pos, d2);
    let mark = or(Expr::Char('e'), or(Expr::Char('E'), Expr::Lit("**")));
    let e1 = then(Expr::Node(Rule::SignedNumber), mark);
    let e2 = then(e1, opt(Expr::Node(Rule::Sign)));
    let e3 = then(e2, digit());
    then_refuses_first(Expr::Node(Rule::SignedNumber), mark, s, pos, d2);
    then_refuses_first(e1, opt(Expr::Node(Rule::Sign)), s, pos, d2);
    then_refuses_first(e2, digit(), s, pos, d2);
    then_refuses_first(e3, star(digit()), s, pos, d2);
    node_refuses(Rule::Exponent, s, pos, d1);
    or_refuses(Expr::Node(Rule::Exponent), Expr::Node(Rule::SignedNumber), s, pos, d1);
    then_refuses_first(
        or(Expr::Node(Rule::Exponent), Expr::Node(Rule::SignedNumber)),
        opt(Expr::Node(Rule::SYMBOL)),
        s,
        pos,
        d1,
    );
    node_refuses(Rule::Number, s, pos, d);
}

/// Rule `SignedNumber` fails where no number starts.
pub proof fn signed_refuses(s: Seq<char>, pos: usize, d: nat)
    requires
        d >= 3,
        !number_start(s, pos as int),
    ensures
        refuses(Expr::Node(Rule::SignedNumber), s, pos, d),
{
    let d1 = (d - 1) as nat;
    let d2 = (d - 2) as nat;
    sign_refuses(s, pos, d1);
    integer_refuses(s, pos, d1);
    integer_refuses(s, pos, d2);
    // Decimal
    then_refuses_first(Expr::Node(Rule::Integer), Expr::Char('.'), s, pos, d2);
    then_refuses_first(then(Expr::Node(Rule::Integer), Expr::Char('.')), digits(), s, pos, d2);
    node_refuses(Rule::Decimal, s, pos, d1);
    // DecimalBad
    char_refuses('.', s, pos, d2);
    then_refuses_first(Expr::Char('.'), digits(), s, pos, d2);
    or_refuses(
        then(Expr::Node(Rule::Integer), Expr::Char('.')),
        then(Expr::Char('.'), digits()),
        s,
        pos,
        d2,
    );
    node_refuses(Rule::DecimalBad, s, pos, d1);
    or_refuses(Expr::Node(Rule::DecimalBad), Expr::Node(Rule::Integer), s, pos, d1);
    let body = or(
        Expr::Node(Rule::Decimal),
        or(Expr::Node(Rule::DecimalBad), Expr::Node(Rule::Integer)),
    );
    or_refuses(
        Expr::Node(Rule::Decimal),
        or(Expr::Node(Rule::DecimalBad), Expr::Node(Rule::Integer)),
        s,
        pos,
        d1,
    );
    then_refuses_second(opt(Expr::Node(Rule::Sign)), body, s, pos, d1, pos, Seq::empty());
    node_refuses(Rule::SignedNumber, s, pos, d);
}

/// The text of a special word.
pub open spec fn special_text(v: Val) -> Seq<char> {
    match v {
        Val::Boolean(true) => "true"@,
        Val::Boolean(false) => "false"@,
        _ => "null"@,
    }
}

/// The `data` node of a special word at `pos`.
pub open spec fn special_data(pos: usize, v: Val) -> Tree {
    let end = (pos + special_text(v).len()) as usize;
    node(Rule::data, pos, end, seq![node(Rule::Special, pos, end, Seq::empty())])
}

/// Rule `Special` fails where none of the three words starts.
pub proof fn special_refuses(s: Seq<char>, pos: usize, d: nat)
    requires
        d >= 1,
        pos >= s.len() || (s[pos as int] != 't' && s[pos as int] != 'f' && s[pos as int] != 'n'),
    ensures
        refuses(Expr::Node(Rule::Special), s, pos, d),
{
    let d1 = (d - 1) as nat;
    reveal_strlit("true");
    reveal_strlit("false");
    reveal_strlit("null");
    lit_refuses_by_first("true", s, pos, d1);
    lit_refuses_by_first("false", s, pos, d1);
    lit_refuses_by_first("null", s, pos, d1);
    or_refuses(Expr::Lit("false"), Expr::Lit("null"), s, pos, d1);
    or_refuses(Expr::Lit("true"), or(Expr::Lit("false"), Expr::Lit("null")), s, pos, d1);
    node_refuses(Rule::Special, s, pos, d);
}

/// Rule `data` takes a special word whole, and the builder makes of its node
/// the value that the word names.
pub proof fn special_data_yields(s: Seq<char>, pos: usize, v: Val, d: nat)
    requires
        d >= 6,
        s.len() <= usize::MAX,
        v is Null || v is Boolean,
        has_at(s, pos, special_text(v)),
    ensures
        yields(
            Expr::Node(Rule::data),
            s,
            pos,
            d,
            (pos + special_text(v).len()) as usize,
            seq![special_data(pos, v)],
        ),
        data_value(special_data(pos, v), s) == Ok::<Val, LiteralError>(v),
{
    let t = special_text(v);
    let end = (pos + t.len()) as usize;
    let d1 = (d - 1) as nat;
    let d2 = (d - 2) as nat;
    reveal_strlit("true");
    reveal_strlit("false");
    reveal_strlit("null");
    assert(s[pos as int] == t[0]) by {
        assert(s.subrange(pos as int, end as int)[0] == t[0]);
    }
    byte_refuses(s, pos, d1);
    number_refuses(s, pos, d1);
    let rest = or(Expr::Lit("false"), Expr::Lit("null"));
    match v {
        Val::Boolean(true) => {
            lit_yields("true", s, pos, d2);
            or_yields_first(Expr::Lit("true"), rest, s, pos, d2, end, Seq::empty());
        },
        Val::Boolean(false) => {
            lit_refuses_by_first("true", s, pos, d2);
            lit_yields("false", s, pos, d2);
            or_yields_first(Expr::Lit("false"), Expr::Lit("null"), s, pos, d2, end, Seq::empty());
            or_yields_second(Expr::Lit("true"), rest, s, pos, d2, end, Seq::empty());
        },
        _ => {
            lit_refuses_by_first("true", s, pos, d2);
            lit_refuses_by_first("false", s, pos, d2);
            lit_yields("null", s, pos, d2);
            or_yields_second(Expr::Lit("false"), Expr::Lit("null"), s, pos, d2, end, Seq::empty());
            or_yields_second(Expr::Lit("true"), rest, s, pos, d2, end, Seq::empty());
        },
    }
    node_yields(Rule::Special, s, pos, d1, end, Seq::empty());
    let kids = seq![node(Rule::Special, pos, end, Seq::empty())];
    let tail = or(
        Expr::Node(Rule::String),
        or(
            Expr::Node(Rule::cite_value),
            or(
                Expr::Node(Rule::dict_literal),
                or(
                    Expr::Node(Rule::list_literal),
                    or(Expr::Node(Rule::import_statement), Expr::Node(Rule::InlineString)),
                ),
            ),
        ),
    );
    or_yields_first(Expr::Node(Rule::Special), tail, s, pos, d1, end, kids);
    or_yields_second(Expr::Node(Rule::Number), data_tail(), s, pos, d1, end, kids);
    or_yields_second(
        Expr::Node(Rule::Byte),
        or(Expr::Node(Rule::Number), data_tail()),
        s,
        pos,
        d1,
        end,
        kids,
    );
    node_yields(Rule::data, s, pos, d, end, kids);
    assert(crate::scalar::special_value(node(Rule::Special, pos, end, Seq::empty()), s)
        == Ok::<Val, LiteralError>(v));
}

/// The escaped form of a string starts with that of its first character.
pub proof fn escape_first(src: Seq<char>)
    requires
        src.len() > 0,
    ensures
        escape(src) == escape_char(src[0]) + escape(src.drop_first()),
    decreases src.len(),
{
    if src.len() == 1 {
        assert(src.drop_last() =~= Seq::<char>::empty());
        assert(src.drop_first() =~= Seq::<char>::empty());
        assert(escape(src.drop_last()) =~= Seq::<char>::empty());
        assert(escape(src) =~= escape_char(src[0]) + escape(src.drop_first()));
    } else {
        escape_first(src.drop_last());
        assert(src.drop_last().drop_first() =~= src.drop_first().drop_last());
        assert(src.drop_first().last() == src.last());
        assert(src.drop_last()[0] == src[0]);
        assert(escape(src) =~= escape_char(src[0]) + escape(src.drop_first()));
    }
}

/// Resolving the escapes of an escaped string gives the string back.
pub proof fn unescape_escape(src: Seq<char>)
    ensures
        unescape(escape(src)) == src,
    decreases src.len(),
{
    if src.len() == 0 {
        assert(unescape(escape(src)) =~= src);
    } else {
        escape_first(src);
        unescape_escape(src.drop_first());
        let head = escape_char(src[0]);
        let tail = escape(src.drop_first());
        let all = head + tail;
        if head.len() == 2 {
            assert(all[0] == '\\');
            assert(all.subrange(2, all.len() as int) =~= tail);
            assert(unescape_char(head[1]) == src[0]);
            assert(unescape(all) =~= seq![src[0]] + src.drop_first());
        } else {
            assert(all[0] == src[0]);
            assert(all.drop_first() =~= tail);
            assert(unescape(all) =~= seq![src[0]] + src.drop_first());
        }
        assert(seq![src[0]] + src.drop_first() =~= src);
    }
}

/// The body of a string literal takes the escaped form of a string whole
/// where the closing quote follows.
pub proof fn body_run(s: Seq<char>, pos: usize, src: Seq<char>, d: nat)
    requires
        s.len() <= usize::MAX,
        has_at(s, pos, escape(src)),
        pos + escape(src).len() < s.len(),
        s[pos + escape(src).len()] == '"',
    ensures
        yields(
            star(quoted_char('"')),
            s,
            pos,
            d,
            (pos + escape(src).len()) as usize,
            Seq::empty(),
        ),
    decreases src.len(),
{
    let a = quoted_char('"');
    let first = then(Expr::Char('\\'), Expr::Any);
    let second = then(not_quote(), Expr::Any);
    let end = (pos + escape(src).len()) as usize;
    if src.len() == 0 {
        char_refuses('\\', s, pos, d);
        then_refuses_first(Expr::Char('\\'), Expr::Any, s, pos, d);
        char_yields('"', s, pos, d);
        not_refuses(Expr::Char('"'), s, pos, d, (pos + 1) as usize, Seq::empty());
        then_refuses_first(not_quote(), Expr::Any, s, pos, d);
        or_refuses(first, second, s, pos, d);
        star_stops(a, s, pos, d);
    } else {
        escape_first(src);
        let head = escape_char(src[0]);
        let tail = escape(src.drop_first());
        let mid = (pos + head.len()) as usize;
        assert(s.subrange(pos as int, end as int) == head + tail);
        assert(s[pos as int] == head[0]) by {
            assert(s.subrange(pos as int, end as int)[0] == (head + tail)[0]);
        }
        assert(s.subrange(mid as int, end as int) =~= tail) by {
            assert forall|i: int| 0 <= i < tail.len() implies s.subrange(mid as int, end as int)[i]
                == tail[i] by {
                assert(s.subrange(pos as int, end as int)[i + head.len()] == (head + tail)[i
                    + head.len()]);
            }
        }
        body_run(s, mid, src.drop_first(), d);
        if head.len() == 2 {
            char_yields('\\', s, pos, d);
            any_yields(s, (pos + 1) as usize, d);
            then_yields(
                Expr::Char('\\'),
                Expr::Any,
                s,
                pos,
                d,
                (pos + 1) as usize,
                mid,
                Seq::empty(),
                Seq::empty(),
            );
            assert(Seq::<Tree>::empty() + Seq::<Tree>::empty() =~= Seq::<Tree>::empty());
            or_yields_first(first, second, s, pos, d, mid, Seq::empty());
        } else {
            char_refuses('\\', s, pos, d);
            then_refuses_first(Expr::Char('\\'), Expr::Any, s, pos, d);
            char_refuses('"', s, pos, d);
            not_yields(Expr::Char('"'), s, pos, d);
            any_yields(s, pos, d);
            then_yields(not_quote(), Expr::Any, s, pos, d, pos, mid, Seq::empty(), Seq::empty());
            assert(Seq::<Tree>::empty() + Seq::<Tree>::empty() =~= Seq::<Tree>::empty());
            or_yields_second(first, second, s, pos, d, mid, Seq::empty());
        }
        star_steps(a, s, pos, d, mid, end, Seq::empty(), Seq::empty());
    }
}

/// Not a double quote.
pub open spec fn not_quote() -> Expr {
    crate::grammar::not(Expr::Char('"'))
}

/// The `String` node of the literal of string `src` at `pos`.
pub open spec fn string_tree(pos: usize, src: Seq<char>) -> Tree {
    let end = (pos + quoted(src).len()) as usize;
    node(
        Rule::String,
        pos,
        end,
        seq![
            node(
                Rule::StringNormal,
                pos,
                end,
                seq![
                    node(Rule::StringQuotation, (pos + 1) as usize, (end - 1) as usize, Seq::empty()),
                ],
            ),
        ],
    )
}

/// The `data` node of the literal of string `src` at `pos`.
pub open spec fn string_data(pos: usize, src: Seq<char>) -> Tree {
    node(Rule::data, pos, (pos + quoted(src).len()) as usize, seq![string_tree(pos, src)])
}

/// Rule `StringNormal` fails where no quote stands.
pub proof fn quotes_refuse(s: Seq<char>, pos: usize, d: nat)
    requires
        d >= 1,
        pos >= s.len() || (s[pos as int] != '"' && s[pos as int] != '\''),
    ensures
        refuses(Expr::Node(Rule::StringNormal), s, pos, d),
{
    let d1 = (d - 1) as nat;
    let a1 = then(Expr::Char('"'), Expr::Node(Rule::StringQuotation));
    let b1 = then(Expr::Char('\''), Expr::Node(Rule::StringApostrophe));
    char_refuses('"', s, pos, d1);
    char_refuses('\'', s, pos, d1);
    then_refuses_first(Expr::Char('"'), Expr::Node(Rule::StringQuotation), s, pos, d1);
    then_refuses_first(a1, Expr::Char('"'), s, pos, d1);
    then_refuses_first(Expr::Char('\''), Expr::Node(Rule::StringApostrophe), s, pos, d1);
    then_refuses_first(b1, Expr::Char('\''), s, pos, d1);
    or_refuses(then(a1, Expr::Char('"')), then(b1, Expr::Char('\'')), s, pos, d1);
    node_refuses(Rule::StringNormal, s, pos, d);
}

/// Rule `String` fails where neither a quote nor a letter stands.
pub proof fn string_refuses(s: Seq<char>, pos: usize, d: nat)
    requires
        d >= 2,
        pos >= s.len() || ((s[pos as int] as u32) < 0x80 && !is_letter(s[pos as int])
            && s[pos as int] != '_' && s[pos as int] != '"' && s[pos as int] != '\''),
    ensures
        refuses(Expr::Node(Rule::String), s, pos, d),
{
    let d1 = (d - 1) as nat;
    symbol_refuses(s, pos, d1);
    opt_skips(Expr::Node(Rule::SYMBOL), s, pos, d1);
    quotes_refuse(s, pos, d1);
    then_refuses_second(
        opt(Expr::Node(Rule::SYMBOL)),
        Expr::Node(Rule::StringNormal),
        s,
        pos,
        d1,
        pos,
        Seq::empty(),
    );
    node_refuses(Rule::String, s, pos, d);
}

/// Rule `data` takes the literal of a string whole, and the builder makes
/// of its node the string.
pub proof fn string_data_yields(s: Seq<char>, pos: usize, src: Seq<char>, d: nat)
    requires
        d >= 6,
        s.len() <= usize::MAX,
        has_at(s, pos, quoted(src)),
    ensures
        yields(
            Expr::Node(Rule::data),
            s,
            pos,
            d,
            (pos + quoted(src).len()) as usize,
            seq![string_data(pos, src)],
        ),
        data_value(string_data(pos, src), s) == Ok::<Val, LiteralError>(Val::String(src)),
{
    let t = quoted(src);
    let end = (pos + t.len()) as usize;
    let open = (pos + 1) as usize;
    let close = (end - 1) as usize;
    let d1 = (d - 1) as nat;
    let d2 = (d - 2) as nat;
    let d3 = (d - 3) as nat;
    let d4 = (d - 4) as nat;
    assert(t.len() == escape(src).len() + 2);
    assert(s[pos as int] == '"') by {
        assert(s.subrange(pos as int, end as int)[0] == t[0]);
    }
    assert(s[close as int] == '"') by {
        assert(s.subrange(pos as int, end as int)[close - pos] == t[close - pos]);
    }
    assert(s.subrange(open as int, close as int) =~= escape(src)) by {
        assert forall|i: int| 0 <= i < escape(src).len() implies s.subrange(
            open as int,
            close as int,
        )[i] == escape(src)[i] by {
            assert(s.subrange(pos as int, end as int)[i + 1] == t[i + 1]);
        }
    }
    // the body
    body_run(s, open, src, d4);
    node_yields(Rule::StringQuotation, s, open, d3, close, Seq::empty());
    let body = seq![node(Rule::StringQuotation, open, close, Seq::empty())];
    char_yields('"', s, pos, d3);
    then_yields(
        Expr::Char('"'),
        Expr::Node(Rule::StringQuotation),
        s,
        pos,
        d3,
        open,
        close,
        Seq::empty(),
        body,
    );
    assert(Seq::<Tree>::empty() + body =~= body);
    char_yields('"', s, close, d3);
    let a1 = then(Expr::Char('"'), Expr::Node(Rule::StringQuotation));
    let b1 = then(Expr::Char('\''), Expr::Node(Rule::StringApostrophe));
    then_yields(a1, Expr::Char('"'), s, pos, d3, close, end, body, Seq::empty());
    assert(body + Seq::<Tree>::empty() =~= body);
    or_yields_first(
        then(a1, Expr::Char('"')),
        then(b1, Expr::Char('\'')),
        s,
        pos,
        d3,
        end,
        body,
    );
    node_yields(Rule::StringNormal, s, pos, d2, end, body);
    let normal = seq![node(Rule::StringNormal, pos, end, body)];
    symbol_refuses(s, pos, d2);
    opt_skips(Expr::Node(Rule::SYMBOL), s, pos, d2);
    then_yields(
        opt(Expr::Node(Rule::SYMBOL)),
        Expr::Node(Rule::StringNormal),
        s,
        pos,
        d2,
        pos,
        end,
        Seq::empty(),
        normal,
    );
    assert(Seq::<Tree>::empty() + normal =~= normal);
    node_yields(Rule::String, s, pos, d1, end, normal);
    let kids = seq![string_tree(pos, src)];
    // the alternatives before
    byte_refuses(s, pos, d1);
    number_refuses(s, pos, d1);
    special_refuses(s, pos, d1);
    let tail = or(
        Expr::Node(Rule::cite_value),
        or(
            Expr::Node(Rule::dict_literal),
            or(
                Expr::Node(Rule::list_literal),
                or(Expr::Node(Rule::import_statement), Expr::Node(Rule::InlineString)),
            ),
        ),
    );
    or_yields_first(Expr::Node(Rule::String), tail, s, pos, d1, end, kids);
    or_yields_second(
        Expr::Node(Rule::Special),
        or(Expr::Node(Rule::String), tail),
        s,
        pos,
        d1,
        end,
        kids,
    );
    or_yields_second(Expr::Node(Rule::Number), data_tail(), s, pos, d1, end, kids);
    or_yields_second(
        Expr::Node(Rule::Byte),
        or(Expr::Node(Rule::Number), data_tail()),
        s,
        pos,
        d1,
        end,
        kids,
    );
    node_yields(Rule::data, s, pos, d, end, kids);
    // the value
    unescape_escape(src);
    let sn = node(Rule::StringNormal, pos, end, body);
    assert(crate::scalar::quoted_text(sn, s) == Ok::<Seq<char>, LiteralError>(src));
    assert(crate::scalar::string_value(string_tree(pos, src), s) == Ok::<Val, LiteralError>(
        Val::String(src),
    ));
}

} // verus!
