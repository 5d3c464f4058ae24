//! What single expressions add to a parse tree, whatever the state: the
//! facts from which the shape of each rule's node follows.

use vstd::prelude::*;
use crate::grammar::{
    digit, digits, dots, grammar, hex_digit, list_item, opt, or, pair_item, skip, star, then,
};
use crate::laws::shapes::{eval_labels, labels, statement_rules};
use crate::peg::{eval, has_at, one, Expr, State, Step, Tree};
use crate::scalar::{base_of, exponent_start, in_text};
use crate::rule::Rule;

verus! {

/// Expression `e` adds no node, in every state.
pub open spec fn adds_none(e: Expr, s: Seq<char>, d: nat) -> bool {
    forall|pos: usize, q: bool, st: State|
        pos <= s.len() ==> {
            let out = #[trigger] eval(e, s, pos, d, q, st);
            &&& out.0 is Fail ==> out.1.nodes == st.nodes
            &&& out.0 matches Step::Match(end) ==> out.1.nodes == st.nodes && pos <= end <= s.len()
        }
}

/// Expression `e`, where it matches, adds one node: of one of the rules
/// `rules`, and with the span of the match.
pub open spec fn adds_one(e: Expr, s: Seq<char>, d: nat, rules: Set<Rule>) -> bool {
    forall|pos: usize, q: bool, st: State|
        pos <= s.len() ==> {
            let out = #[trigger] eval(e, s, pos, d, q, st);
            &&& out.0 is Fail ==> out.1.nodes == st.nodes
            &&& out.0 matches Step::Match(end) ==> {
                &&& pos <= end <= s.len()
                &&& out.1.nodes.len() == st.nodes.len() + 1
                &&& out.1.nodes == st.nodes.push(out.1.nodes[st.nodes.len() as int])
                &&& rules.contains(out.1.nodes[st.nodes.len() as int].rule)
                &&& out.1.nodes[st.nodes.len() as int].start == pos
                &&& out.1.nodes[st.nodes.len() as int].end == end
            }
        }
}

/// An expression that names no rule adds no node.
pub proof fn none_of_labels(e: Expr, s: Seq<char>, d: nat)
    requires
        s.len() <= usize::MAX,
        labels(e) == Set::<Rule>::empty(),
    ensures
        adds_none(e, s, d),
{
    assert forall|pos: usize, q: bool, st: State| pos <= s.len() implies {
        let out = #[trigger] eval(e, s, pos, d, q, st);
        &&& out.0 is Fail ==> out.1.nodes == st.nodes
        &&& out.0 matches Step::Match(end) ==> out.1.nodes == st.nodes && pos <= end <= s.len()
    } by {
        eval_labels(e, s, pos, d, q, st);
        let out = eval(e, s, pos, d, q, st);
        if out.0 is Match {
            assert(out.1.nodes.len() == st.nodes.len()) by {
                if out.1.nodes.len() > st.nodes.len() {
                    assert(labels(e).contains(out.1.nodes[st.nodes.len() as int].rule));
                }
            }
            assert(out.1.nodes =~= st.nodes);
        }
    }
}

/// A rule as a node adds one node of that rule.
pub proof fn one_of_node(r: Rule, s: Seq<char>, d: nat)
    requires
        s.len() <= usize::MAX,
    ensures
        adds_one(Expr::Node(r), s, d, set![r]),
{
    let e = Expr::Node(r);
    assert forall|pos: usize, q: bool, st: State| pos <= s.len() implies {
        let out = #[trigger] eval(e, s, pos, d, q, st);
        &&& out.0 is Fail ==> out.1.nodes == st.nodes
        &&& out.0 matches Step::Match(end) ==> {
            &&& pos <= end <= s.len()
            &&& out.1.nodes.len() == st.nodes.len() + 1
            &&& out.1.nodes == st.nodes.push(out.1.nodes[st.nodes.len() as int])
            &&& set![r].contains(out.1.nodes[st.nodes.len() as int].rule)
            &&& out.1.nodes[st.nodes.len() as int].start == pos
            &&& out.1.nodes[st.nodes.len() as int].end == end
        }
    } by {
        eval_labels(e, s, pos, d, q, st);
        let out = eval(e, s, pos, d, q, st);
        if out.0 is Match {
            assert(out.1.nodes =~= st.nodes.push(out.1.nodes[st.nodes.len() as int]));
        }
    }
}

/// A choice adds one node of the rules of which its two sides add one.
pub proof fn one_of_or(a: Expr, b: Expr, s: Seq<char>, d: nat, ra: Set<Rule>, rb: Set<Rule>)
    requires
        adds_one(a, s, d, ra),
        adds_one(b, s, d, rb),
    ensures
        adds_one(or(a, b), s, d, ra.union(rb)),
{
    let e = or(a, b);
    assert forall|pos: usize, q: bool, st: State| pos <= s.len() implies {
        let out = #[trigger] eval(e, s, pos, d, q, st);
        &&& out.0 is Fail ==> out.1.nodes == st.nodes
        &&& out.0 matches Step::Match(end) ==> {
            &&& pos <= end <= s.len()
            &&& out.1.nodes.len() == st.nodes.len() + 1
            &&& out.1.nodes == st.nodes.push(out.1.nodes[st.nodes.len() as int])
            &&& ra.union(rb).contains(out.1.nodes[st.nodes.len() as int].rule)
            &&& out.1.nodes[st.nodes.len() as int].start == pos
            &&& out.1.nodes[st.nodes.len() as int].end == end
        }
    } by {
        let oa = eval(a, s, pos, d, q, st);
        if oa.0 is Fail {
            let ob = eval(b, s, pos, d, q, oa.1);
        }
    }
}

/// A character test adds no node.
pub proof fn char_silent(c: char, s: Seq<char>, d: nat)
    requires
        s.len() <= usize::MAX,
    ensures
        adds_none(Expr::Char(c), s, d),
{
    assert(labels(Expr::Char(c)) =~= Set::<Rule>::empty());
    none_of_labels(Expr::Char(c), s, d);
}

/// A word adds no node.
pub proof fn lit_silent(w: &'static str, s: Seq<char>, d: nat)
    requires
        s.len() <= usize::MAX,
    ensures
        adds_none(Expr::Lit(w), s, d),
{
    assert(labels(Expr::Lit(w)) =~= Set::<Rule>::empty());
    none_of_labels(Expr::Lit(w), s, d);
}

/// Digits, white space, comments, separators and the sign between key and
/// value add no node.
pub proof fn silent_parts(s: Seq<char>, d: nat)
    requires
        s.len() <= usize::MAX,
    ensures
        adds_none(digits(), s, d),
        adds_none(skip(), s, d),
        adds_none(Expr::Inline(Rule::SEPARATOR), s, d),
        adds_none(Expr::Inline(Rule::Assign), s, d),
        adds_none(opt(Expr::Inline(Rule::SEPARATOR)), s, d),
{
    reveal_with_fuel(labels, 8);
    assert(labels(digits()) =~= Set::<Rule>::empty());
    none_of_labels(digits(), s, d);
    assert(labels(skip()) =~= Set::<Rule>::empty());
    none_of_labels(skip(), s, d);
    assert(labels(Expr::Inline(Rule::SEPARATOR)) =~= Set::<Rule>::empty());
    none_of_labels(Expr::Inline(Rule::SEPARATOR), s, d);
    assert(labels(Expr::Inline(Rule::Assign)) =~= Set::<Rule>::empty());
    none_of_labels(Expr::Inline(Rule::Assign), s, d);
    assert(labels(opt(Expr::Inline(Rule::SEPARATOR))) =~= Set::<Rule>::empty());
    none_of_labels(opt(Expr::Inline(Rule::SEPARATOR)), s, d);
}

/// What a character test gives.
pub proof fn char_steps(c: char, s: Seq<char>, d: nat)
    ensures
        forall|pos: usize, q: bool, st: State| #[trigger]
            eval(Expr::Char(c), s, pos, d, q, st) == (
                one(pos < s.len() && s[pos as int] == c, pos),
                st,
            ),
{
}

/// What a range of characters gives.
pub proof fn range_steps(lo: char, hi: char, s: Seq<char>, d: nat)
    ensures
        forall|pos: usize, q: bool, st: State| #[trigger]
            eval(Expr::Range(lo, hi), s, pos, d, q, st) == (
                one(pos < s.len() && lo as u32 <= s[pos as int] as u32 <= hi as u32, pos),
                st,
            ),
{
}

/// What a word gives.
pub proof fn lit_steps(w: &'static str, s: Seq<char>, d: nat)
    ensures
        forall|pos: usize, q: bool, st: State| #[trigger]
            eval(Expr::Lit(w), s, pos, d, q, st) == (
                if has_at(s, pos, w@) {
                    Step::Match((pos + w@.len()) as usize)
                } else {
                    Step::Fail
                },
                st,
            ),
{
}

/// Where `a` then `b` matches, `a` matches and `b` matches behind it, and
/// the outcome is that of `b`.
pub proof fn then_parts(a: Expr, b: Expr, s: Seq<char>, pos: usize, d: nat, q: bool, st: State)
    ensures
        ({
            let o = eval(then(a, b), s, pos, d, q, st);
            let oa = eval(a, s, pos, d, q, st);
            o.0 is Match ==> oa.0 is Match && eval(b, s, oa.0->Match_0, d, q, oa.1) == o
        }),
{
    let oa = eval(a, s, pos, d, q, st);
    if let Step::Match(mid) = oa.0 {
        let ob = eval(b, s, mid, d, q, oa.1);
    }
}

/// The outcome of `a` or `b` is that of `a`, or that of `b` behind the
/// failure of `a`.
pub proof fn or_parts(a: Expr, b: Expr, s: Seq<char>, pos: usize, d: nat, q: bool, st: State)
    ensures
        ({
            let o = eval(or(a, b), s, pos, d, q, st);
            let oa = eval(a, s, pos, d, q, st);
            o == if oa.0 is Fail {
                eval(b, s, pos, d, q, oa.1)
            } else {
                oa
            }
        }),
{
}

/// The outcome of an option is that of its expression, or a match of
/// nothing behind its failure.
pub proof fn opt_parts(a: Expr, s: Seq<char>, pos: usize, d: nat, q: bool, st: State)
    ensures
        ({
            let o = eval(opt(a), s, pos, d, q, st);
            let oa = eval(a, s, pos, d, q, st);
            o == if oa.0 is Fail {
                (Step::Match(pos), oa.1)
            } else {
                oa
            }
        }),
{
}

/// The node of rule `rule` that the expression of the rule makes in a match
/// from `pos`, where the state held no nodes before.
pub open spec fn made(rule: Rule, s: Seq<char>, pos: usize, d: nat, q: bool, st: State) -> Tree {
    let out = eval(grammar(rule), s, pos, d, q, st);
    Tree { rule, start: pos, end: out.0->Match_0, children: out.1.nodes }
}

/// Whether rule `rule` matches from `pos` in a state that holds no nodes.
pub open spec fn makes(rule: Rule, s: Seq<char>, pos: usize, d: nat, q: bool, st: State) -> bool {
    &&& pos <= s.len() <= usize::MAX
    &&& st.nodes.len() == 0
    &&& eval(grammar(rule), s, pos, d, q, st).0 is Match
}

/// The node that a rule makes spans a part of the text.
pub proof fn made_in_text(rule: Rule, s: Seq<char>, pos: usize, d: nat, q: bool, st: State)
    requires
        makes(rule, s, pos, d, q, st),
    ensures
        in_text(made(rule, s, pos, d, q, st), s),
{
    eval_labels(grammar(rule), s, pos, d, q, st);
}

/// What a node must look like for the builder to read it: how many nodes
/// stand inside it, of which rules and in which order, and where they end.
pub open spec fn shape_ok(t: Tree, s: Seq<char>) -> bool {
    let n = t.children.len() as int;
    let kids = t.children;
    &&& in_text(t, s)
    &&& match t.rule {
        Rule::Sign | Rule::Special => t.start < t.end,
        Rule::Byte_BIN | Rule::Byte_OCT | Rule::Byte_HEX => t.end - t.start >= 2,
        Rule::Decimal => n == 1 && kids[0].rule == Rule::Integer && t.start <= kids[0].end
            < t.end,
        Rule::DecimalBad => (n == 1 && kids[0].rule == Rule::Integer && t.start <= kids[0].end
            < t.end) || (n == 0 && t.start < t.end),
        Rule::SignedNumber => (n == 1 || (n == 2 && kids[0].rule == Rule::Sign)) && (kids[n
            - 1].rule == Rule::Decimal || kids[n - 1].rule == Rule::DecimalBad || kids[n
            - 1].rule == Rule::Integer),
        Rule::Exponent => (n == 1 || (n == 2 && kids[1].rule == Rule::Sign)) && kids[0].rule
            == Rule::SignedNumber && kids[0].end < t.end && exponent_start(t, s) <= t.end,
        Rule::Number => (n == 1 || (n == 2 && kids[1].rule == Rule::SYMBOL)) && (kids[0].rule
            == Rule::Exponent || kids[0].rule == Rule::SignedNumber),
        Rule::Byte => (n == 1 || (n == 2 && kids[1].rule == Rule::SYMBOL)) && base_of(
            kids[0].rule,
        ) != 0,
        Rule::StringNormal => n == 1 && (kids[0].rule == Rule::StringQuotation || kids[0].rule
            == Rule::StringApostrophe),
        Rule::String => (n == 1 || (n == 2 && kids[0].rule == Rule::SYMBOL)) && kids[n
            - 1].rule == Rule::StringNormal,
        Rule::Key => n == 1 && (kids[0].rule == Rule::StringNormal || kids[0].rule
            == Rule::SYMBOL || kids[0].rule == Rule::Integer),
        Rule::namespace => n >= 1 && forall|i: int|
            0 <= i < n ==> (#[trigger] kids[i]).rule == Rule::Key,
        Rule::cite_value => n == 1 && kids[0].rule == Rule::namespace,
        Rule::import_statement => n == 2 && kids[0].rule == Rule::StringNormal && kids[1].rule
            == Rule::SYMBOL,
        Rule::data => n == 1 && data_rules().contains(kids[0].rule),
        Rule::dict_pair => n == 2 && kids[0].rule == Rule::namespace && kids[1].rule
            == Rule::data,
        Rule::dict_literal => forall|i: int|
            0 <= i < n ==> (#[trigger] kids[i]).rule == Rule::dict_pair,
        Rule::list_literal => forall|i: int| 0 <= i < n ==> (#[trigger] kids[i]).rule == Rule::data,
        Rule::dict_head | Rule::list_head => n >= 1 && kids[n - 1].rule == Rule::namespace,
        Rule::list_pair => n >= 1 && ((kids[0].rule == Rule::Insert && forall|i: int|
            1 <= i < n ==> (#[trigger] kids[i]).rule == Rule::dict_pair) || (kids[0].rule
            == Rule::Append && forall|i: int| 1 <= i < n ==> (#[trigger] kids[i]).rule == Rule::data)),
        Rule::dict_scope => n >= 1 && kids[0].rule == Rule::dict_head && forall|i: int|
            1 <= i < n ==> (#[trigger] kids[i]).rule == Rule::dict_pair,
        Rule::list_scope => n >= 1 && kids[0].rule == Rule::list_head && forall|i: int|
            1 <= i < n ==> (#[trigger] kids[i]).rule == Rule::list_pair,
        Rule::program => forall|i: int|
            0 <= i < n ==> statement_rules().insert(Rule::EOI).contains((#[trigger] kids[i]).rule),
        _ => true,
    }
}

/// The rules of the node inside a `data` node.
pub open spec fn data_rules() -> Set<Rule> {
    set![
        Rule::Byte,
        Rule::Number,
        Rule::Special,
        Rule::String,
        Rule::cite_value,
        Rule::dict_literal,
        Rule::list_literal,
        Rule::import_statement,
        Rule::InlineString,
    ]
}

/// The node of rule `Sign` or `Special` spans at least one character.
pub proof fn word_made(rule: Rule, s: Seq<char>, pos: usize, d: nat, q: bool, st: State)
    requires
        rule == Rule::Sign || rule == Rule::Special,
        makes(rule, s, pos, d, q, st),
    ensures
        shape_ok(made(rule, s, pos, d, q, st), s),
{
    made_in_text(rule, s, pos, d, q, st);
    reveal_strlit("true");
    reveal_strlit("false");
    reveal_strlit("null");
    char_steps('+', s, d);
    char_steps('-', s, d);
    lit_steps("true", s, d);
    lit_steps("false", s, d);
    lit_steps("null", s, d);
    if rule == Rule::Sign {
        or_parts(Expr::Char('+'), Expr::Char('-'), s, pos, d, q, st);
    } else {
        let rest = or(Expr::Lit("false"), Expr::Lit("null"));
        or_parts(Expr::Lit("true"), rest, s, pos, d, q, st);
        let o1 = eval(Expr::Lit("true"), s, pos, d, q, st);
        or_parts(Expr::Lit("false"), Expr::Lit("null"), s, pos, d, q, o1.1);
    }
}

/// The node of a rule of byte literals spans at least two characters.
pub proof fn based_made(rule: Rule, s: Seq<char>, pos: usize, d: nat, q: bool, st: State)
    requires
        rule == Rule::Byte_BIN || rule == Rule::Byte_OCT || rule == Rule::Byte_HEX,
        makes(rule, s, pos, d, q, st),
    ensures
        shape_ok(made(rule, s, pos, d, q, st), s),
{
    made_in_text(rule, s, pos, d, q, st);
    char_steps('0', s, d);
    let (lower, upper, digit) = if rule == Rule::Byte_BIN {
        ('b', 'B', Expr::Range('0', '1'))
    } else if rule == Rule::Byte_OCT {
        ('o', 'O', Expr::Range('0', '7'))
    } else {
        ('x', 'X', hex_digit())
    };
    char_steps(lower, s, d);
    char_steps(upper, s, d);
    let letter = or(Expr::Char(lower), Expr::Char(upper));
    or_parts(Expr::Char(lower), Expr::Char(upper), s, (pos + 1) as usize, d, q, st);
    let e1 = then(Expr::Char('0'), letter);
    let e2 = then(e1, digit);
    assert(grammar(rule) == then(e2, star(digit)));
    then_parts(e2, star(digit), s, pos, d, q, st);
    then_parts(e1, digit, s, pos, d, q, st);
    then_parts(Expr::Char('0'), letter, s, pos, d, q, st);
    let o0 = eval(Expr::Char('0'), s, pos, d, q, st);
    let o1 = eval(e1, s, pos, d, q, st);
    let o2 = eval(e2, s, pos, d, q, st);
    eval_labels(letter, s, (pos + 1) as usize, d, q, o0.1);
    eval_labels(digit, s, o1.0->Match_0, d, q, o1.1);
    eval_labels(star(digit), s, o2.0->Match_0, d, q, o2.1);
}

/// The node of rule `Decimal` holds one `Integer` node, which ends before
/// the node ends.
pub proof fn decimal_made(s: Seq<char>, pos: usize, d: nat, q: bool, st: State)
    requires
        makes(Rule::Decimal, s, pos, d, q, st),
    ensures
        shape_ok(made(Rule::Decimal, s, pos, d, q, st), s),
{
    made_in_text(Rule::Decimal, s, pos, d, q, st);
    one_of_node(Rule::Integer, s, d);
    silent_parts(s, d);
    char_steps('.', s, d);
    let e1 = then(Expr::Node(Rule::Integer), Expr::Char('.'));
    assert(grammar(Rule::Decimal) == then(e1, digits()));
    then_parts(e1, digits(), s, pos, d, q, st);
    then_parts(Expr::Node(Rule::Integer), Expr::Char('.'), s, pos, d, q, st);
}

/// The node of rule `DecimalBad` holds one `Integer` node, which ends before
/// the node ends, or it holds nothing and spans at least the point.
pub proof fn decimal_bad_made(s: Seq<char>, pos: usize, d: nat, q: bool, st: State)
    requires
        makes(Rule::DecimalBad, s, pos, d, q, st),
    ensures
        shape_ok(made(Rule::DecimalBad, s, pos, d, q, st), s),
{
    made_in_text(Rule::DecimalBad, s, pos, d, q, st);
    one_of_node(Rule::Integer, s, d);
    silent_parts(s, d);
    char_steps('.', s, d);
    let a = then(Expr::Node(Rule::Integer), Expr::Char('.'));
    let b = then(Expr::Char('.'), digits());
    assert(grammar(Rule::DecimalBad) == or(a, b));
    or_parts(a, b, s, pos, d, q, st);
    then_parts(Expr::Node(Rule::Integer), Expr::Char('.'), s, pos, d, q, st);
    let oa = eval(a, s, pos, d, q, st);
    eval_labels(a, s, pos, d, q, st);
    then_parts(Expr::Char('.'), digits(), s, pos, d, q, oa.1);
}

/// The node of rule `SignedNumber` holds a `Decimal`, `DecimalBad` or
/// `Integer` node, and before it a `Sign` node or nothing.
pub proof fn signed_made(s: Seq<char>, pos: usize, d: nat, q: bool, st: State)
    requires
        makes(Rule::SignedNumber, s, pos, d, q, st),
    ensures
        shape_ok(made(Rule::SignedNumber, s, pos, d, q, st), s),
{
    made_in_text(Rule::SignedNumber, s, pos, d, q, st);
    one_of_node(Rule::Sign, s, d);
    one_of_node(Rule::Decimal, s, d);
    one_of_node(Rule::DecimalBad, s, d);
    one_of_node(Rule::Integer, s, d);
    let tail = or(Expr::Node(Rule::DecimalBad), Expr::Node(Rule::Integer));
    one_of_or(
        Expr::Node(Rule::DecimalBad),
        Expr::Node(Rule::Integer),
        s,
        d,
        set![Rule::DecimalBad],
        set![Rule::Integer],
    );
    let body = or(Expr::Node(Rule::Decimal), tail);
    one_of_or(
        Expr::Node(Rule::Decimal),
        tail,
        s,
        d,
        set![Rule::Decimal],
        set![Rule::DecimalBad].union(set![Rule::Integer]),
    );
    let sign = opt(Expr::Node(Rule::Sign));
    assert(grammar(Rule::SignedNumber) == then(sign, body));
    then_parts(sign, body, s, pos, d, q, st);
    opt_parts(Expr::Node(Rule::Sign), s, pos, d, q, st);
    let o1 = eval(sign, s, pos, d, q, st);
    let ob = eval(body, s, o1.0->Match_0, d, q, o1.1);
    let n = o1.1.nodes.len() as int;
    assert(ob.1.nodes == o1.1.nodes.push(ob.1.nodes[n]));
}

/// The node of rule `Exponent` holds a `SignedNumber` node and behind it a
/// `Sign` node or nothing; the digits of the exponent start and end in it.
pub proof fn exponent_made(s: Seq<char>, pos: usize, d: nat, q: bool, st: State)
    requires
        makes(Rule::Exponent, s, pos, d, q, st),
    ensures
        shape_ok(made(Rule::Exponent, s, pos, d, q, st), s),
{
    made_in_text(Rule::Exponent, s, pos, d, q, st);
    reveal_strlit("**");
    one_of_node(Rule::SignedNumber, s, d);
    one_of_node(Rule::Sign, s, d);
    char_steps('e', s, d);
    char_steps('E', s, d);
    lit_steps("**", s, d);
    range_steps('0', '9', s, d);
    let number = Expr::Node(Rule::SignedNumber);
    let big = or(Expr::Char('E'), Expr::Lit("**"));
    let mark = or(Expr::Char('e'), big);
    let sign = opt(Expr::Node(Rule::Sign));
    let e1 = then(number, mark);
    let e2 = then(e1, sign);
    let e3 = then(e2, digit());
    assert(grammar(Rule::Exponent) == then(e3, star(digit())));
    then_parts(e3, star(digit()), s, pos, d, q, st);
    then_parts(e2, digit(), s, pos, d, q, st);
    then_parts(e1, sign, s, pos, d, q, st);
    then_parts(number, mark, s, pos, d, q, st);
    let o0 = eval(number, s, pos, d, q, st);
    let a = o0.0->Match_0;
    or_parts(Expr::Char('e'), big, s, a, d, q, o0.1);
    or_parts(Expr::Char('E'), Expr::Lit("**"), s, a, d, q, o0.1);
    if has_at(s, a, "**"@) {
        assert(s.subrange(a as int, a + 2)[0] == '*');
    }
    let o1 = eval(e1, s, pos, d, q, st);
    let m1 = o1.0->Match_0;
    assert(o1.1 == o0.1);
    assert(m1 == if s[a as int] == '*' {
        a + 2
    } else {
        a + 1
    });
    opt_parts(Expr::Node(Rule::Sign), s, m1, d, q, o1.1);
    let o2 = eval(e2, s, pos, d, q, st);
    let m2 = o2.0->Match_0;
    assert(m1 <= m2);
    let o3 = eval(e3, s, pos, d, q, st);
    assert(o3.1 == o2.1);
    assert(o3.0->Match_0 == m2 + 1);
    eval_labels(star(digit()), s, (m2 + 1) as usize, d, q, o3.1);
    let o4 = eval(then(e3, star(digit())), s, pos, d, q, st);
    assert(o4.1.nodes =~= o3.1.nodes) by {
        reveal_with_fuel(labels, 3);
        assert(labels(star(digit())) =~= Set::<Rule>::empty());
        if o4.1.nodes.len() > o3.1.nodes.len() {
            assert(labels(star(digit())).contains(o4.1.nodes[o3.1.nodes.len() as int].rule));
        }
    }
}

/// A node and an optional node behind it: the node of rule `Number` holds an
/// `Exponent` or `SignedNumber` node and a `SYMBOL` node or nothing; that of
/// rule `Byte` a node of a rule of byte literals and a `SYMBOL` node or
/// nothing.
pub proof fn tagged_made(rule: Rule, s: Seq<char>, pos: usize, d: nat, q: bool, st: State)
    requires
        rule == Rule::Number || rule == Rule::Byte,
        makes(rule, s, pos, d, q, st),
    ensures
        shape_ok(made(rule, s, pos, d, q, st), s),
{
    made_in_text(rule, s, pos, d, q, st);
    one_of_node(Rule::SYMBOL, s, d);
    let symbol = Expr::Node(Rule::SYMBOL);
    if rule == Rule::Number {
        one_of_node(Rule::Exponent, s, d);
        one_of_node(Rule::SignedNumber, s, d);
        let first = or(Expr::Node(Rule::Exponent), Expr::Node(Rule::SignedNumber));
        one_of_or(
            Expr::Node(Rule::Exponent),
            Expr::Node(Rule::SignedNumber),
            s,
            d,
            set![Rule::Exponent],
            set![Rule::SignedNumber],
        );
        assert(grammar(rule) == then(first, opt(symbol)));
        then_parts(first, opt(symbol), s, pos, d, q, st);
        let o1 = eval(first, s, pos, d, q, st);
        opt_parts(symbol, s, o1.0->Match_0, d, q, o1.1);
    } else {
        one_of_node(Rule::Byte_BIN, s, d);
        one_of_node(Rule::Byte_OCT, s, d);
        one_of_node(Rule::Byte_HEX, s, d);
        let rest = or(Expr::Node(Rule::Byte_OCT), Expr::Node(Rule::Byte_HEX));
        one_of_or(
            Expr::Node(Rule::Byte_OCT),
            Expr::Node(Rule::Byte_HEX),
            s,
            d,
            set![Rule::Byte_OCT],
            set![Rule::Byte_HEX],
        );
        let first = or(Expr::Node(Rule::Byte_BIN), rest);
        one_of_or(
            Expr::Node(Rule::Byte_BIN),
            rest,
            s,
            d,
            set![Rule::Byte_BIN],
            set![Rule::Byte_OCT].union(set![Rule::Byte_HEX]),
        );
        let tag = then(Expr::Char('_'), symbol);
        char_steps('_', s, d);
        assert(grammar(rule) == then(first, opt(tag)));
        then_parts(first, opt(tag), s, pos, d, q, st);
        let o1 = eval(first, s, pos, d, q, st);
        let mid = o1.0->Match_0;
        opt_parts(tag, s, mid, d, q, o1.1);
        then_parts(Expr::Char('_'), symbol, s, mid, d, q, o1.1);
        eval_labels(tag, s, mid, d, q, o1.1);
    }
}

/// The node of rule `StringNormal` holds the node of the text between its
/// quotes.
pub proof fn quoted_made(s: Seq<char>, pos: usize, d: nat, q: bool, st: State)
    requires
        makes(Rule::StringNormal, s, pos, d, q, st),
    ensures
        shape_ok(made(Rule::StringNormal, s, pos, d, q, st), s),
{
    made_in_text(Rule::StringNormal, s, pos, d, q, st);
    one_of_node(Rule::StringQuotation, s, d);
    one_of_node(Rule::StringApostrophe, s, d);
    char_steps('"', s, d);
    char_steps('\'', s, d);
    let a1 = then(Expr::Char('"'), Expr::Node(Rule::StringQuotation));
    let a = then(a1, Expr::Char('"'));
    let b1 = then(Expr::Char('\''), Expr::Node(Rule::StringApostrophe));
    let b = then(b1, Expr::Char('\''));
    assert(grammar(Rule::StringNormal) == or(a, b));
    or_parts(a, b, s, pos, d, q, st);
    then_parts(a1, Expr::Char('"'), s, pos, d, q, st);
    then_parts(Expr::Char('"'), Expr::Node(Rule::StringQuotation), s, pos, d, q, st);
    let oa = eval(a, s, pos, d, q, st);
    eval_labels(a, s, pos, d, q, st);
    then_parts(b1, Expr::Char('\''), s, pos, d, q, oa.1);
    then_parts(Expr::Char('\''), Expr::Node(Rule::StringApostrophe), s, pos, d, q, oa.1);
}

/// The node of rule `String` holds a `StringNormal` node, and before it a
/// `SYMBOL` node or nothing.
pub proof fn string_made(s: Seq<char>, pos: usize, d: nat, q: bool, st: State)
    requires
        makes(Rule::String, s, pos, d, q, st),
    ensures
        shape_ok(made(Rule::String, s, pos, d, q, st), s),
{
    made_in_text(Rule::String, s, pos, d, q, st);
    one_of_node(Rule::SYMBOL, s, d);
    one_of_node(Rule::StringNormal, s, d);
    let tag = opt(Expr::Node(Rule::SYMBOL));
    let body = Expr::Node(Rule::StringNormal);
    assert(grammar(Rule::String) == then(tag, body));
    then_parts(tag, body, s, pos, d, q, st);
    opt_parts(Expr::Node(Rule::SYMBOL), s, pos, d, q, st);
    let o1 = eval(tag, s, pos, d, q, st);
    let ob = eval(body, s, o1.0->Match_0, d, q, o1.1);
    let n = o1.1.nodes.len() as int;
    assert(ob.1.nodes == o1.1.nodes.push(ob.1.nodes[n]));
}

/// The node of rule `Key` holds one node, of a quoted word, a bare word or
/// a number; the node of rule `data` holds one node of a value.
pub proof fn choice_made(rule: Rule, s: Seq<char>, pos: usize, d: nat, q: bool, st: State)
    requires
        rule == Rule::Key || rule == Rule::data,
        makes(rule, s, pos, d, q, st),
    ensures
        shape_ok(made(rule, s, pos, d, q, st), s),
{
    made_in_text(rule, s, pos, d, q, st);
    if rule == Rule::Key {
        one_of_node(Rule::StringNormal, s, d);
        one_of_node(Rule::SYMBOL, s, d);
        one_of_node(Rule::Integer, s, d);
        let rest = or(Expr::Node(Rule::SYMBOL), Expr::Node(Rule::Integer));
        one_of_or(
            Expr::Node(Rule::SYMBOL),
            Expr::Node(Rule::Integer),
            s,
            d,
            set![Rule::SYMBOL],
            set![Rule::Integer],
        );
        one_of_or(
            Expr::Node(Rule::StringNormal),
            rest,
            s,
            d,
            set![Rule::StringNormal],
            set![Rule::SYMBOL].union(set![Rule::Integer]),
        );
        assert(grammar(rule) == or(Expr::Node(Rule::StringNormal), rest));
        let o = eval(grammar(rule), s, pos, d, q, st);
    } else {
        one_of_node(Rule::Byte, s, d);
        one_of_node(Rule::Number, s, d);
        one_of_node(Rule::Special, s, d);
        one_of_node(Rule::String, s, d);
        one_of_node(Rule::cite_value, s, d);
        one_of_node(Rule::dict_literal, s, d);
        one_of_node(Rule::list_literal, s, d);
        one_of_node(Rule::import_statement, s, d);
        one_of_node(Rule::InlineString, s, d);
        let e8 = or(Expr::Node(Rule::import_statement), Expr::Node(Rule::InlineString));
        let r8 = set![Rule::import_statement].union(set![Rule::InlineString]);
        one_of_or(
            Expr::Node(Rule::import_statement),
            Expr::Node(Rule::InlineString),
            s,
            d,
            set![Rule::import_statement],
            set![Rule::InlineString],
        );
        let e7 = or(Expr::Node(Rule::list_literal), e8);
        let r7 = set![Rule::list_literal].union(r8);
        one_of_or(Expr::Node(Rule::list_literal), e8, s, d, set![Rule::list_literal], r8);
        let e6 = or(Expr::Node(Rule::dict_literal), e7);
        let r6 = set![Rule::dict_literal].union(r7);
        one_of_or(Expr::Node(Rule::dict_literal), e7, s, d, set![Rule::dict_literal], r7);
        let e5 = or(Expr::Node(Rule::cite_value), e6);
        let r5 = set![Rule::cite_value].union(r6);
        one_of_or(Expr::Node(Rule::cite_value), e6, s, d, set![Rule::cite_value], r6);
        let e4 = or(Expr::Node(Rule::String), e5);
        let r4 = set![Rule::String].union(r5);
        one_of_or(Expr::Node(Rule::String), e5, s, d, set![Rule::String], r5);
        let e3 = or(Expr::Node(Rule::Special), e4);
        let r3 = set![Rule::Special].union(r4);
        one_of_or(Expr::Node(Rule::Special), e4, s, d, set![Rule::Special], r4);
        let e2 = or(Expr::Node(Rule::Number), e3);
        let r2 = set![Rule::Number].union(r3);
        one_of_or(Expr::Node(Rule::Number), e3, s, d, set![Rule::Number], r3);
        let e1 = or(Expr::Node(Rule::Byte), e2);
        one_of_or(Expr::Node(Rule::Byte), e2, s, d, set![Rule::Byte], r2);
        assert(grammar(rule) == e1);
        let o = eval(grammar(rule), s, pos, d, q, st);
        assert(set![Rule::Byte].union(r2) =~= data_rules());
    }
}

/// What the expression of a rule names bounds what stands in the rule's
/// node: only `Key` nodes in a `namespace` node, and at least one; only
/// pairs in a dictionary and only values in a list; only the nodes of
/// statements and of the end of the text in a `program` node.
pub proof fn named_made(rule: Rule, s: Seq<char>, pos: usize, d: nat, q: bool, st: State)
    requires
        rule == Rule::namespace || rule == Rule::dict_literal || rule == Rule::list_literal
            || rule == Rule::program,
        makes(rule, s, pos, d, q, st),
    ensures
        shape_ok(made(rule, s, pos, d, q, st), s),
{
    made_in_text(rule, s, pos, d, q, st);
    eval_labels(grammar(rule), s, pos, d, q, st);
    reveal_with_fuel(labels, 12);
    if rule == Rule::namespace {
        assert(labels(grammar(rule)) =~= set![Rule::Key]);
        one_of_node(Rule::Key, s, d);
        let more = star(then(Expr::Char('.'), Expr::Node(Rule::Key)));
        then_parts(Expr::Node(Rule::Key), more, s, pos, d, q, st);
        let o1 = eval(Expr::Node(Rule::Key), s, pos, d, q, st);
        eval_labels(more, s, o1.0->Match_0, d, q, o1.1);
    } else if rule == Rule::dict_literal {
        assert(labels(grammar(rule)) =~= set![Rule::dict_pair]);
    } else if rule == Rule::list_literal {
        assert(labels(grammar(rule)) =~= set![Rule::data]);
    } else {
        assert(labels(grammar(rule)) =~= statement_rules().insert(Rule::EOI));
    }
}

/// The node of rule `cite_value` holds one `namespace` node.
pub proof fn cite_made(s: Seq<char>, pos: usize, d: nat, q: bool, st: State)
    requires
        makes(Rule::cite_value, s, pos, d, q, st),
    ensures
        shape_ok(made(Rule::cite_value, s, pos, d, q, st), s),
{
    made_in_text(Rule::cite_value, s, pos, d, q, st);
    one_of_node(Rule::namespace, s, d);
    char_steps('$', s, d);
    then_parts(Expr::Char('$'), Expr::Node(Rule::namespace), s, pos, d, q, st);
}

/// The node of rule `import_statement` holds a `StringNormal` node and a
/// `SYMBOL` node.
pub proof fn import_made(s: Seq<char>, pos: usize, d: nat, q: bool, st: State)
    requires
        makes(Rule::import_statement, s, pos, d, q, st),
    ensures
        shape_ok(made(Rule::import_statement, s, pos, d, q, st), s),
{
    made_in_text(Rule::import_statement, s, pos, d, q, st);
    one_of_node(Rule::StringNormal, s, d);
    one_of_node(Rule::SYMBOL, s, d);
    silent_parts(s, d);
    char_silent('(', s, d);
    char_silent(',', s, d);
    char_silent(')', s, d);
    lit_silent("@import", s, d);
    let w = Expr::Lit("@import");
    let e1 = then(w, skip());
    let e2 = then(e1, Expr::Char('('));
    let e3 = then(e2, skip());
    let e4 = then(e3, Expr::Node(Rule::StringNormal));
    let e5 = then(e4, skip());
    let e6 = then(e5, Expr::Char(','));
    let e7 = then(e6, skip());
    let e8 = then(e7, Expr::Node(Rule::SYMBOL));
    let e9 = then(e8, skip());
    assert(grammar(Rule::import_statement) == then(e9, Expr::Char(')')));
    then_parts(e9, Expr::Char(')'), s, pos, d, q, st);
    then_parts(e8, skip(), s, pos, d, q, st);
    then_parts(e7, Expr::Node(Rule::SYMBOL), s, pos, d, q, st);
    then_parts(e6, skip(), s, pos, d, q, st);
    then_parts(e5, Expr::Char(','), s, pos, d, q, st);
    then_parts(e4, skip(), s, pos, d, q, st);
    then_parts(e3, Expr::Node(Rule::StringNormal), s, pos, d, q, st);
    then_parts(e2, skip(), s, pos, d, q, st);
    then_parts(e1, Expr::Char('('), s, pos, d, q, st);
    then_parts(w, skip(), s, pos, d, q, st);
    let o3 = eval(e3, s, pos, d, q, st);
    assert(o3.1.nodes == st.nodes);
    let o4 = eval(e4, s, pos, d, q, st);
    assert(o4.1.nodes.len() == 1);
    let o7 = eval(e7, s, pos, d, q, st);
    assert(o7.1.nodes == o4.1.nodes);
    let o8 = eval(e8, s, pos, d, q, st);
    assert(o8.1.nodes.len() == 2);
}

/// The node of rule `dict_pair` holds a `namespace` node and a `data` node.
pub proof fn pair_made(s: Seq<char>, pos: usize, d: nat, q: bool, st: State)
    requires
        makes(Rule::dict_pair, s, pos, d, q, st),
    ensures
        shape_ok(made(Rule::dict_pair, s, pos, d, q, st), s),
{
    made_in_text(Rule::dict_pair, s, pos, d, q, st);
    one_of_node(Rule::namespace, s, d);
    one_of_node(Rule::data, s, d);
    silent_parts(s, d);
    let e1 = then(Expr::Node(Rule::namespace), skip());
    let e2 = then(e1, Expr::Inline(Rule::Assign));
    let e3 = then(e2, skip());
    assert(grammar(Rule::dict_pair) == then(e3, Expr::Node(Rule::data)));
    then_parts(e3, Expr::Node(Rule::data), s, pos, d, q, st);
    then_parts(e2, skip(), s, pos, d, q, st);
    then_parts(e1, Expr::Inline(Rule::Assign), s, pos, d, q, st);
    then_parts(Expr::Node(Rule::namespace), skip(), s, pos, d, q, st);
    let o0 = eval(Expr::Node(Rule::namespace), s, pos, d, q, st);
    let o3 = eval(e3, s, pos, d, q, st);
    assert(o3.1.nodes == o0.1.nodes);
}

/// The node of rule `dict_head` or `list_head` holds a `namespace` node
/// last.
pub proof fn head_made(rule: Rule, s: Seq<char>, pos: usize, d: nat, q: bool, st: State)
    requires
        rule == Rule::dict_head || rule == Rule::list_head,
        makes(rule, s, pos, d, q, st),
    ensures
        shape_ok(made(rule, s, pos, d, q, st), s),
{
    made_in_text(rule, s, pos, d, q, st);
    one_of_node(Rule::namespace, s, d);
    silent_parts(s, d);
    let (open, close) = if rule == Rule::dict_head {
        ('{', '}')
    } else {
        ('[', ']')
    };
    char_silent(open, s, d);
    char_silent(close, s, d);
    let e1 = then(Expr::Char(open), skip());
    let e2 = then(e1, dots());
    let e3 = then(e2, skip());
    let e4 = then(e3, Expr::Node(Rule::namespace));
    let e5 = then(e4, skip());
    assert(grammar(rule) == then(e5, Expr::Char(close)));
    then_parts(e5, Expr::Char(close), s, pos, d, q, st);
    then_parts(e4, skip(), s, pos, d, q, st);
    then_parts(e3, Expr::Node(Rule::namespace), s, pos, d, q, st);
    let o3 = eval(e3, s, pos, d, q, st);
    let o4 = eval(e4, s, pos, d, q, st);
    let o5 = eval(e5, s, pos, d, q, st);
    eval_labels(e3, s, pos, d, q, st);
    assert(o5.1.nodes == o4.1.nodes);
    assert(o4.1.nodes.len() == o3.1.nodes.len() + 1);
}

/// The node of a rule that is a first node and then more of one rule: that
/// of `dict_scope` holds a `dict_head` node and then `dict_pair` nodes, that
/// of `list_scope` a `list_head` node and then `list_pair` nodes.
pub proof fn scope_made(rule: Rule, s: Seq<char>, pos: usize, d: nat, q: bool, st: State)
    requires
        rule == Rule::dict_scope || rule == Rule::list_scope,
        makes(rule, s, pos, d, q, st),
    ensures
        shape_ok(made(rule, s, pos, d, q, st), s),
{
    made_in_text(rule, s, pos, d, q, st);
    silent_parts(s, d);
    reveal_with_fuel(labels, 8);
    let (head, item, inner) = if rule == Rule::dict_scope {
        (Rule::dict_head, pair_item(), Rule::dict_pair)
    } else {
        (Rule::list_head, list_item(), Rule::list_pair)
    };
    one_of_node(head, s, d);
    let rest = opt(then(item, star(then(skip(), item))));
    assert(labels(rest) =~= set![inner]);
    let e1 = then(Expr::Node(head), skip());
    assert(grammar(rule) == then(e1, rest));
    then_parts(e1, rest, s, pos, d, q, st);
    then_parts(Expr::Node(head), skip(), s, pos, d, q, st);
    let o1 = eval(e1, s, pos, d, q, st);
    assert(o1.1.nodes.len() == 1);
    eval_labels(rest, s, o1.0->Match_0, d, q, o1.1);
}

/// The node of rule `list_pair` holds an `Insert` node and then `dict_pair`
/// nodes, or an `Append` node and then `data` nodes.
pub proof fn list_pair_made(s: Seq<char>, pos: usize, d: nat, q: bool, st: State)
    requires
        makes(Rule::list_pair, s, pos, d, q, st),
    ensures
        shape_ok(made(Rule::list_pair, s, pos, d, q, st), s),
{
    made_in_text(Rule::list_pair, s, pos, d, q, st);
    silent_parts(s, d);
    reveal_with_fuel(labels, 8);
    one_of_node(Rule::Insert, s, d);
    one_of_node(Rule::Append, s, d);
    one_of_node(Rule::dict_pair, s, d);
    one_of_node(Rule::data, s, d);
    let pair = Expr::Node(Rule::dict_pair);
    let value = Expr::Node(Rule::data);
    let pairs = opt(then(pair, star(then(skip(), pair))));
    let values = opt(then(value, star(then(skip(), value))));
    assert(labels(pairs) =~= set![Rule::dict_pair]);
    assert(labels(values) =~= set![Rule::data]);
    let a1 = then(Expr::Node(Rule::Insert), skip());
    let a2 = then(a1, pair);
    let a3 = then(a2, skip());
    let a = then(a3, pairs);
    let b1 = then(Expr::Node(Rule::Append), skip());
    let b2 = then(b1, value);
    let b3 = then(b2, skip());
    let b = then(b3, values);
    assert(grammar(Rule::list_pair) == or(a, b));
    or_parts(a, b, s, pos, d, q, st);
    let oa = eval(a, s, pos, d, q, st);
    eval_labels(a, s, pos, d, q, st);
    if oa.0 is Fail {
        let st2 = oa.1;
        then_parts(b3, values, s, pos, d, q, st2);
        then_parts(b2, skip(), s, pos, d, q, st2);
        then_parts(b1, value, s, pos, d, q, st2);
        then_parts(Expr::Node(Rule::Append), skip(), s, pos, d, q, st2);
        let o1 = eval(b1, s, pos, d, q, st2);
        assert(o1.1.nodes.len() == 1);
        let o3 = eval(b3, s, pos, d, q, st2);
        assert(o3.1.nodes.len() == 2);
        assert(o3.1.nodes[0].rule == Rule::Append);
        assert(o3.1.nodes[1].rule == Rule::data);
        eval_labels(values, s, o3.0->Match_0, d, q, o3.1);
    } else {
        then_parts(a3, pairs, s, pos, d, q, st);
        then_parts(a2, skip(), s, pos, d, q, st);
        then_parts(a1, pair, s, pos, d, q, st);
        then_parts(Expr::Node(Rule::Insert), skip(), s, pos, d, q, st);
        let o1 = eval(a1, s, pos, d, q, st);
        assert(o1.1.nodes.len() == 1);
        let o3 = eval(a3, s, pos, d, q, st);
        assert(o3.1.nodes.len() == 2);
        assert(o3.1.nodes[0].rule == Rule::Insert);
        assert(o3.1.nodes[1].rule == Rule::dict_pair);
        eval_labels(pairs, s, o3.0->Match_0, d, q, o3.1);
    }
}

/// The node that a rule makes has the shape that the builder reads.
pub proof fn rule_made(rule: Rule, s: Seq<char>, pos: usize, d: nat, q: bool, st: State)
    requires
        makes(rule, s, pos, d, q, st),
    ensures
        shape_ok(made(rule, s, pos, d, q, st), s),
{
    made_in_text(rule, s, pos, d, q, st);
    match rule {
        Rule::Sign | Rule::Special => word_made(rule, s, pos, d, q, st),
        Rule::Byte_BIN | Rule::Byte_OCT | Rule::Byte_HEX => based_made(rule, s, pos, d, q, st),
        Rule::Decimal => decimal_made(s, pos, d, q, st),
        Rule::DecimalBad => decimal_bad_made(s, pos, d, q, st),
        Rule::SignedNumber => signed_made(s, pos, d, q, st),
        Rule::Exponent => exponent_made(s, pos, d, q, st),
        Rule::Number | Rule::Byte => tagged_made(rule, s, pos, d, q, st),
        Rule::StringNormal => quoted_made(s, pos, d, q, st),
        Rule::String => string_made(s, pos, d, q, st),
        Rule::Key | Rule::data => choice_made(rule, s, pos, d, q, st),
        Rule::namespace | Rule::dict_literal | Rule::list_literal | Rule::program => named_made(
            rule,
            s,
            pos,
            d,
            q,
            st,
        ),
        Rule::cite_value => cite_made(s, pos, d, q, st),
        Rule::import_statement => import_made(s, pos, d, q, st),
        Rule::dict_pair => pair_made(s, pos, d, q, st),
        Rule::dict_head | Rule::list_head => head_made(rule, s, pos, d, q, st),
        Rule::dict_scope | Rule::list_scope => scope_made(rule, s, pos, d, q, st),
        Rule::list_pair => list_pair_made(s, pos, d, q, st),
        _ => {},
    }
}

} // verus!
