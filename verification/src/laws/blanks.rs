//! How the grammar passes over white space between the parts of a list or a
//! dictionary, and where the rules of values and pairs fail.

use vstd::prelude::*;
use crate::grammar::{
    bare_char, data_item, directive, grammar, newline, not, opt, or, pair_item, skip, star, then,
};
use crate::laws::matches::{
    char_refuses, char_yields, class_refuses, class_yields, inline_refuses, inline_yields,
    lit_refuses_by_first, node_refuses, not_refuses, opt_skips, opt_yields, or_refuses,
    or_yields_first, or_yields_second, refuses, star_stops, then_refuses_first, then_yields,
    yields,
};
use crate::laws::numerals::{byte_refuses, data_tail, integer_refuses, star_run, symbol_refuses};
use crate::peg::{in_class, is_digit, is_letter, CharClass, Expr, Tree};
use crate::rule::Rule;
use crate::laws::words::{number_refuses, quotes_refuse, special_refuses, string_refuses};

verus! {

/// Whether the character at `pos` is a space or a line feed.
pub open spec fn blank_at(s: Seq<char>, pos: int) -> bool {
    pos < s.len() && (s[pos] == ' ' || s[pos] == '\n')
}

/// Whether white space and comments end at `pos`: the text ends there, or an
/// ASCII character stands there that is no white space and no `/`.
pub open spec fn solid_at(s: Seq<char>, pos: int) -> bool {
    pos >= s.len() || ((s[pos] as u32) < 0x80 && s[pos] != ' ' && s[pos] != '\n' && s[pos] != '\r'
        && s[pos] != '\t' && s[pos] != '/')
}

/// A line break fails where neither a line feed nor a carriage return
/// stands.
proof fn newline_refuses(s: Seq<char>, pos: usize, d: nat)
    requires
        pos >= s.len() || (s[pos as int] != '\n' && s[pos as int] != '\r'),
    ensures
        refuses(newline(), s, pos, d),
{
    reveal_strlit("\r\n");
    char_refuses('\n', s, pos, d);
    char_refuses('\r', s, pos, d);
    lit_refuses_by_first("\r\n", s, pos, d);
    or_refuses(Expr::Lit("\r\n"), Expr::Char('\r'), s, pos, d);
    or_refuses(Expr::Char('\n'), or(Expr::Lit("\r\n"), Expr::Char('\r')), s, pos, d);
}

/// White space fails where white space ends.
pub proof fn space_refuses(s: Seq<char>, pos: usize, d: nat)
    requires
        d >= 1,
        solid_at(s, pos as int) || (pos < s.len() && s[pos as int] == '/'),
    ensures
        refuses(Expr::Inline(Rule::WHITESPACE), s, pos, d),
{
    let d1 = (d - 1) as nat;
    newline_refuses(s, pos, d1);
    class_refuses(CharClass::SpaceSeparator, s, pos, d1);
    char_refuses('\t', s, pos, d1);
    or_refuses(Expr::Class(CharClass::SpaceSeparator), Expr::Char('\t'), s, pos, d1);
    or_refuses(
        newline(),
        or(Expr::Class(CharClass::SpaceSeparator), Expr::Char('\t')),
        s,
        pos,
        d1,
    );
    inline_refuses(Rule::WHITESPACE, s, pos, d);
}

/// White space takes a space or a line feed.
pub proof fn space_yields(s: Seq<char>, pos: usize, d: nat)
    requires
        d >= 1,
        s.len() <= usize::MAX,
        blank_at(s, pos as int),
    ensures
        yields(Expr::Inline(Rule::WHITESPACE), s, pos, d, (pos + 1) as usize, Seq::empty()),
{
    let d1 = (d - 1) as nat;
    let end = (pos + 1) as usize;
    let rest = or(Expr::Class(CharClass::SpaceSeparator), Expr::Char('\t'));
    if s[pos as int] == '\n' {
        char_yields('\n', s, pos, d1);
        or_yields_first(
            Expr::Char('\n'),
            or(Expr::Lit("\r\n"), Expr::Char('\r')),
            s,
            pos,
            d1,
            end,
            Seq::empty(),
        );
        or_yields_first(newline(), rest, s, pos, d1, end, Seq::empty());
    } else {
        newline_refuses(s, pos, d1);
        class_yields(CharClass::SpaceSeparator, s, pos, d1);
        or_yields_first(
            Expr::Class(CharClass::SpaceSeparator),
            Expr::Char('\t'),
            s,
            pos,
            d1,
            end,
            Seq::empty(),
        );
        or_yields_second(newline(), rest, s, pos, d1, end, Seq::empty());
    }
    inline_yields(Rule::WHITESPACE, s, pos, d, end, Seq::empty());
}

/// A comment fails where no `/` stands.
pub proof fn comment_refuses(s: Seq<char>, pos: usize, d: nat)
    requires
        d >= 2,
        pos >= s.len() || s[pos as int] != '/',
    ensures
        refuses(Expr::Inline(Rule::COMMENT), s, pos, d),
{
    let d1 = (d - 1) as nat;
    let d2 = (d - 2) as nat;
    reveal_strlit("/*");
    reveal_strlit("//");
    lit_refuses_by_first("/*", s, pos, d2);
    lit_refuses_by_first("//", s, pos, d2);
    let inside = star(
        or(Expr::Inline(Rule::MultiLineComment), then(not(Expr::Lit("*/")), Expr::Any)),
    );
    then_refuses_first(Expr::Lit("/*"), inside, s, pos, d2);
    then_refuses_first(then(Expr::Lit("/*"), inside), Expr::Lit("*/"), s, pos, d2);
    inline_refuses(Rule::MultiLineComment, s, pos, d1);
    then_refuses_first(Expr::Lit("//"), Expr::Inline(Rule::RestOfLine), s, pos, d2);
    inline_refuses(Rule::LineComment, s, pos, d1);
    or_refuses(
        Expr::Inline(Rule::MultiLineComment),
        Expr::Inline(Rule::LineComment),
        s,
        pos,
        d1,
    );
    inline_refuses(Rule::COMMENT, s, pos, d);
}

/// White space and comments take the spaces and line feeds `pos..end` and
/// nothing more where something solid follows.
pub proof fn skip_blanks(s: Seq<char>, pos: usize, end: usize, d: nat)
    requires
        d >= 2,
        pos <= end <= s.len() <= usize::MAX,
        forall|i: int| pos <= i < end ==> blank_at(s, i),
        solid_at(s, end as int),
    ensures
        yields(skip(), s, pos, d, end, Seq::empty()),
{
    let ws = Expr::Inline(Rule::WHITESPACE);
    assert forall|i: usize| pos <= i < end implies #[trigger] yields(
        ws,
        s,
        i,
        d,
        (i + 1) as usize,
        Seq::empty(),
    ) by {
        assert(blank_at(s, i as int));
        space_yields(s, i, d);
    }
    space_refuses(s, end, d);
    star_run(ws, s, pos, end, d);
    comment_refuses(s, end, d);
    then_refuses_first(Expr::Inline(Rule::COMMENT), star(ws), s, end, d);
    star_stops(then(Expr::Inline(Rule::COMMENT), star(ws)), s, end, d);
    then_yields(
        star(ws),
        star(then(Expr::Inline(Rule::COMMENT), star(ws))),
        s,
        pos,
        d,
        end,
        end,
        Seq::empty(),
        Seq::empty(),
    );
    assert(Seq::<Tree>::empty() + Seq::<Tree>::empty() =~= Seq::<Tree>::empty());
}

/// A separator fails where neither `,` nor `;` stands.
pub proof fn separator_refuses(s: Seq<char>, pos: usize, d: nat)
    requires
        d >= 1,
        pos >= s.len() || (s[pos as int] != ',' && s[pos as int] != ';'),
    ensures
        refuses(Expr::Inline(Rule::SEPARATOR), s, pos, d),
        yields(opt(Expr::Inline(Rule::SEPARATOR)), s, pos, d, pos, Seq::empty()),
{
    let d1 = (d - 1) as nat;
    char_refuses(',', s, pos, d1);
    char_refuses(';', s, pos, d1);
    or_refuses(Expr::Char(','), Expr::Char(';'), s, pos, d1);
    inline_refuses(Rule::SEPARATOR, s, pos, d);
    opt_skips(Expr::Inline(Rule::SEPARATOR), s, pos, d);
}

/// A separator takes a comma.
pub proof fn comma_yields(s: Seq<char>, pos: usize, d: nat)
    requires
        d >= 1,
        pos < s.len() <= usize::MAX,
        s[pos as int] == ',',
    ensures
        yields(Expr::Inline(Rule::SEPARATOR), s, pos, d, (pos + 1) as usize, Seq::empty()),
        yields(opt(Expr::Inline(Rule::SEPARATOR)), s, pos, d, (pos + 1) as usize, Seq::empty()),
{
    let d1 = (d - 1) as nat;
    let end = (pos + 1) as usize;
    char_yields(',', s, pos, d1);
    or_yields_first(Expr::Char(','), Expr::Char(';'), s, pos, d1, end, Seq::empty());
    inline_yields(Rule::SEPARATOR, s, pos, d, end, Seq::empty());
    opt_yields(Expr::Inline(Rule::SEPARATOR), s, pos, d, end, Seq::empty());
}

/// Rule `cite_value` fails where no `$` stands.
pub proof fn cite_refuses(s: Seq<char>, pos: usize, d: nat)
    requires
        d >= 1,
        pos >= s.len() || s[pos as int] != '$',
    ensures
        refuses(Expr::Node(Rule::cite_value), s, pos, d),
{
    let d1 = (d - 1) as nat;
    char_refuses('$', s, pos, d1);
    then_refuses_first(Expr::Char('$'), Expr::Node(Rule::namespace), s, pos, d1);
    node_refuses(Rule::cite_value, s, pos, d);
}

/// The part of a dictionary literal behind the opening bracket and the
/// white space.
pub open spec fn dict_rest() -> Expr {
    or(
        Expr::Char('}'),
        then(
            then(
                then(
                    then(
                        then(
                            then(pair_item(), skip()),
                            opt(then(pair_item(), star(then(skip(), pair_item())))),
                        ),
                        skip(),
                    ),
                    opt(Expr::Inline(Rule::SEPARATOR)),
                ),
                skip(),
            ),
            Expr::Char('}'),
        ),
    )
}

/// The part of a list literal behind the opening bracket and the white
/// space.
pub open spec fn list_rest() -> Expr {
    or(
        Expr::Char(']'),
        then(
            then(
                then(
                    then(
                        then(
                            then(data_item(), skip()),
                            opt(then(data_item(), star(then(skip(), data_item())))),
                        ),
                        skip(),
                    ),
                    opt(Expr::Inline(Rule::SEPARATOR)),
                ),
                skip(),
            ),
            Expr::Char(']'),
        ),
    )
}

/// Rule `dict_literal` fails where no `{` stands.
pub proof fn dict_refuses(s: Seq<char>, pos: usize, d: nat)
    requires
        d >= 1,
        pos >= s.len() || s[pos as int] != '{',
    ensures
        refuses(Expr::Node(Rule::dict_literal), s, pos, d),
{
    let d1 = (d - 1) as nat;
    assert(grammar(Rule::dict_literal) == then(then(Expr::Char('{'), skip()), dict_rest()));
    char_refuses('{', s, pos, d1);
    then_refuses_first(Expr::Char('{'), skip(), s, pos, d1);
    then_refuses_first(then(Expr::Char('{'), skip()), dict_rest(), s, pos, d1);
    node_refuses(Rule::dict_literal, s, pos, d);
}

/// Rule `list_literal` fails where no `[` stands.
pub proof fn list_refuses(s: Seq<char>, pos: usize, d: nat)
    requires
        d >= 1,
        pos >= s.len() || s[pos as int] != '[',
    ensures
        refuses(Expr::Node(Rule::list_literal), s, pos, d),
{
    let d1 = (d - 1) as nat;
    assert(grammar(Rule::list_literal) == then(then(Expr::Char('['), skip()), list_rest()));
    char_refuses('[', s, pos, d1);
    then_refuses_first(Expr::Char('['), skip(), s, pos, d1);
    then_refuses_first(then(Expr::Char('['), skip()), list_rest(), s, pos, d1);
    node_refuses(Rule::list_literal, s, pos, d);
}

/// Rule `import_statement` fails where no `@` stands.
pub proof fn import_refuses(s: Seq<char>, pos: usize, d: nat)
    requires
        d >= 1,
        pos >= s.len() || s[pos as int] != '@',
    ensures
        refuses(Expr::Node(Rule::import_statement), s, pos, d),
{
    let d1 = (d - 1) as nat;
    reveal_strlit("@import");
    let w = Expr::Lit("@import");
    lit_refuses_by_first("@import", s, pos, d1);
    let e1 = then(w, skip());
    let e2 = then(e1, Expr::Char('('));
    let e3 = then(e2, skip());
    let e4 = then(e3, Expr::Node(Rule::StringNormal));
    let e5 = then(e4, skip());
    let e6 = then(e5, Expr::Char(','));
    let e7 = then(e6, skip());
    let e8 = then(e7, Expr::Node(Rule::SYMBOL));
    let e9 = then(e8, skip());
    then_refuses_first(w, skip(), s, pos, d1);
    then_refuses_first(e1, Expr::Char('('), s, pos, d1);
    then_refuses_first(e2, skip(), s, pos, d1);
    then_refuses_first(e3, Expr::Node(Rule::StringNormal), s, pos, d1);
    then_refuses_first(e4, skip(), s, pos, d1);
    then_refuses_first(e5, Expr::Char(','), s, pos, d1);
    then_refuses_first(e6, skip(), s, pos, d1);
    then_refuses_first(e7, Expr::Node(Rule::SYMBOL), s, pos, d1);
    then_refuses_first(e8, skip(), s, pos, d1);
    then_refuses_first(e9, Expr::Char(')'), s, pos, d1);
    assert(grammar(Rule::import_statement) == directive(w));
    node_refuses(Rule::import_statement, s, pos, d);
}

/// Rule `InlineString` fails where a `]` stands.
pub proof fn bare_refuses(s: Seq<char>, pos: usize, d: nat)
    requires
        d >= 2,
        pos < s.len() <= usize::MAX,
        s[pos as int] == ']',
    ensures
        refuses(Expr::Node(Rule::InlineString), s, pos, d),
{
    let d1 = (d - 1) as nat;
    let end = (pos + 1) as usize;
    let stop = or(
        Expr::Inline(Rule::SEPARATOR),
        or(newline(), or(Expr::Char(']'), Expr::Char('}'))),
    );
    separator_refuses(s, pos, d1);
    newline_refuses(s, pos, d1);
    char_yields(']', s, pos, d1);
    or_yields_first(Expr::Char(']'), Expr::Char('}'), s, pos, d1, end, Seq::empty());
    or_yields_second(
        newline(),
        or(Expr::Char(']'), Expr::Char('}')),
        s,
        pos,
        d1,
        end,
        Seq::empty(),
    );
    or_yields_second(
        Expr::Inline(Rule::SEPARATOR),
        or(newline(), or(Expr::Char(']'), Expr::Char('}'))),
        s,
        pos,
        d1,
        end,
        Seq::empty(),
    );
    not_refuses(stop, s, pos, d1, end, Seq::empty());
    then_refuses_first(not(stop), Expr::Any, s, pos, d1);
    assert(bare_char() == then(not(stop), Expr::Any));
    then_refuses_first(bare_char(), star(bare_char()), s, pos, d1);
    node_refuses(Rule::InlineString, s, pos, d);
}

/// Rule `data` fails where a `]` stands.
pub proof fn data_refuses(s: Seq<char>, pos: usize, d: nat)
    requires
        d >= 6,
        pos < s.len() <= usize::MAX,
        s[pos as int] == ']',
    ensures
        refuses(Expr::Node(Rule::data), s, pos, d),
{
    let d1 = (d - 1) as nat;
    byte_refuses(s, pos, d1);
    number_refuses(s, pos, d1);
    special_refuses(s, pos, d1);
    string_refuses(s, pos, d1);
    cite_refuses(s, pos, d1);
    dict_refuses(s, pos, d1);
    list_refuses(s, pos, d1);
    import_refuses(s, pos, d1);
    bare_refuses(s, pos, d1);
    let e8 = or(Expr::Node(Rule::import_statement), Expr::Node(Rule::InlineString));
    let e7 = or(Expr::Node(Rule::list_literal), e8);
    let e6 = or(Expr::Node(Rule::dict_literal), e7);
    let e5 = or(Expr::Node(Rule::cite_value), e6);
    let e4 = or(Expr::Node(Rule::String), e5);
    or_refuses(Expr::Node(Rule::import_statement), Expr::Node(Rule::InlineString), s, pos, d1);
    or_refuses(Expr::Node(Rule::list_literal), e8, s, pos, d1);
    or_refuses(Expr::Node(Rule::dict_literal), e7, s, pos, d1);
    or_refuses(Expr::Node(Rule::cite_value), e6, s, pos, d1);
    or_refuses(Expr::Node(Rule::String), e5, s, pos, d1);
    or_refuses(Expr::Node(Rule::Special), e4, s, pos, d1);
    or_refuses(Expr::Node(Rule::Number), data_tail(), s, pos, d1);
    or_refuses(Expr::Node(Rule::Byte), or(Expr::Node(Rule::Number), data_tail()), s, pos, d1);
    node_refuses(Rule::data, s, pos, d);
}

/// Rule `dict_pair` fails where a `}` stands.
pub proof fn pair_refuses(s: Seq<char>, pos: usize, d: nat)
    requires
        d >= 4,
        pos < s.len() <= usize::MAX,
        s[pos as int] == '}',
    ensures
        refuses(Expr::Node(Rule::dict_pair), s, pos, d),
{
    let d1 = (d - 1) as nat;
    let d2 = (d - 2) as nat;
    let d3 = (d - 3) as nat;
    quotes_refuse(s, pos, d3);
    symbol_refuses(s, pos, d3);
    integer_refuses(s, pos, d3);
    or_refuses(Expr::Node(Rule::SYMBOL), Expr::Node(Rule::Integer), s, pos, d3);
    or_refuses(
        Expr::Node(Rule::StringNormal),
        or(Expr::Node(Rule::SYMBOL), Expr::Node(Rule::Integer)),
        s,
        pos,
        d3,
    );
    node_refuses(Rule::Key, s, pos, d2);
    let more = star(then(Expr::Char('.'), Expr::Node(Rule::Key)));
    then_refuses_first(Expr::Node(Rule::Key), more, s, pos, d2);
    node_refuses(Rule::namespace, s, pos, d1);
    let e1 = then(Expr::Node(Rule::namespace), skip());
    let e2 = then(e1, Expr::Inline(Rule::Assign));
    let e3 = then(e2, skip());
    then_refuses_first(Expr::Node(Rule::namespace), skip(), s, pos, d1);
    then_refuses_first(e1, Expr::Inline(Rule::Assign), s, pos, d1);
    then_refuses_first(e2, skip(), s, pos, d1);
    then_refuses_first(e3, Expr::Node(Rule::data), s, pos, d1);
    node_refuses(Rule::dict_pair, s, pos, d);
}

} // verus!
