//! The builder finds every node of a parse tree in the shape that it reads:
//! the only literal errors of a text that matches the grammar are numbers
//! that do not fit.

use vstd::prelude::*;
use crate::builder::{
    data_value, document, head_path, pair_parts, pairs_into, scope_items, statement_into,
    statements_into, values_in,
};
use crate::grammar::grammar;
use crate::laws::kinds::{data_rules, made, rule_made, shape_ok};
use crate::laws::shapes::{eval_labels, statement_rules};
use crate::parser::{parse_tree, parses};
use crate::peg::{eval, Expr, State, Step, Tree};
use crate::rule::Rule;
use crate::scalar::{
    byte_value, cite_value, decimal_parts, exponent_parts, import_value, inline_value, key_step,
    number_value, path_of, path_steps, quoted_text, signed_parts, special_value, string_value,
    Fault, LiteralError,
};
use crate::value::{PathStep, Val};

verus! {

/// Whether a node and all nodes inside it have the shape that the builder
/// reads.
pub open spec fn shaped(t: Tree, s: Seq<char>) -> bool
    decreases t,
{
    &&& shape_ok(t, s)
    &&& forall|i: int| 0 <= i < t.children.len() ==> shaped(#[trigger] t.children[i], s)
}

/// Whether all of the nodes are shaped.
pub open spec fn all_shaped(ts: Seq<Tree>, s: Seq<char>) -> bool {
    forall|i: int| 0 <= i < ts.len() ==> shaped(#[trigger] ts[i], s)
}

/// An attempt adds only shaped nodes.
pub proof fn eval_shaped(e: Expr, s: Seq<char>, pos: usize, d: nat, q: bool, st: State)
    requires
        pos <= s.len() <= usize::MAX,
        all_shaped(st.nodes, s),
    ensures
        all_shaped(eval(e, s, pos, d, q, st).1.nodes, s),
    decreases d, e, s.len() - pos,
{
    match e {
        Expr::Then(a, b) => {
            eval_shaped(*a, s, pos, d, q, st);
            eval_labels(*a, s, pos, d, q, st);
            let (ra, sa) = eval(*a, s, pos, d, q, st);
            if let Step::Match(mid) = ra {
                eval_shaped(*b, s, mid, d, q, sa);
            }
        },
        Expr::Or(a, b) => {
            eval_shaped(*a, s, pos, d, q, st);
            let (ra, sa) = eval(*a, s, pos, d, q, st);
            if ra is Fail {
                eval_shaped(*b, s, pos, d, q, sa);
            }
        },
        Expr::Opt(a) => {
            eval_shaped(*a, s, pos, d, q, st);
        },
        Expr::Star(a) => {
            eval_shaped(*a, s, pos, d, q, st);
            eval_labels(*a, s, pos, d, q, st);
            let (ra, sa) = eval(*a, s, pos, d, q, st);
            if let Step::Match(next) = ra {
                if pos < next <= s.len() {
                    eval_shaped(e, s, next, d, q, sa);
                }
            }
        },
        Expr::Node(r) => {
            if d > 0 {
                let inner = State { nodes: Seq::empty(), far: st.far, expected: st.expected };
                eval_shaped(grammar(r), s, pos, (d - 1) as nat, q, inner);
                let (rb, sb) = eval(grammar(r), s, pos, (d - 1) as nat, q, inner);
                if let Step::Match(end) = rb {
                    let t = Tree { rule: r, start: pos, end: end, children: sb.nodes };
                    rule_made(r, s, pos, (d - 1) as nat, q, inner);
                    assert(t == made(r, s, pos, (d - 1) as nat, q, inner));
                    assert(shaped(t, s)) by {
                        assert forall|i: int| 0 <= i < t.children.len() implies shaped(
                            #[trigger] t.children[i],
                            s,
                        ) by {
                            assert(shaped(sb.nodes[i], s));
                        }
                    }
                    let after = st.nodes.push(t);
                    assert forall|i: int| 0 <= i < after.len() implies shaped(
                        #[trigger] after[i],
                        s,
                    ) by {
                        if i < st.nodes.len() {
                            assert(shaped(st.nodes[i], s));
                        }
                    }
                }
            }
        },
        Expr::Inline(r) => {
            if d > 0 {
                eval_shaped(grammar(r), s, pos, (d - 1) as nat, q, st);
            }
        },
        _ => {},
    }
}

/// Every node of the parse tree of a text has the shape that the builder
/// reads.
pub proof fn parse_tree_shaped(rule: Rule, s: Seq<char>, depth: nat)
    requires
        s.len() <= usize::MAX,
        parses(rule, s, depth),
    ensures
        shaped(parse_tree(rule, s, depth), s),
        parse_tree(rule, s, depth).rule == rule,
{
    let st = State { nodes: Seq::empty(), far: 0, expected: Seq::empty() };
    eval_shaped(Expr::Node(rule), s, 0, depth, false, st);
    eval_labels(Expr::Node(rule), s, 0, depth, false, st);
    let out = eval(Expr::Node(rule), s, 0, depth, false, st);
    assert(shaped(out.1.nodes[0], s));
}

/// Whether a result of the builder is a value or an overflow: no node was
/// found in a wrong shape.
pub open spec fn fine<T>(r: Result<T, LiteralError>) -> bool {
    match r {
        Ok(_) => true,
        Err(e) => e.kind == Fault::Overflow,
    }
}

/// The builder reads a shaped number.
pub proof fn signed_fine(t: Tree, s: Seq<char>)
    requires
        shaped(t, s),
        t.rule == Rule::SignedNumber,
    ensures
        fine(signed_parts(t, s)),
{
    let n = t.children.len() as int;
    assert(shaped(t.children[0], s));
    assert(shaped(t.children[n - 1], s));
    let body = t.children[n - 1];
    if body.rule == Rule::Decimal || body.rule == Rule::DecimalBad {
        assert(fine(decimal_parts(body, s)));
    }
}

/// The builder reads a shaped number with an exponent.
pub proof fn exponent_fine(t: Tree, s: Seq<char>)
    requires
        shaped(t, s),
        t.rule == Rule::Exponent,
    ensures
        fine(exponent_parts(t, s)),
{
    let n = t.children.len() as int;
    assert(shaped(t.children[0], s));
    assert(shaped(t.children[n - 1], s));
    signed_fine(t.children[0], s);
}

/// The builder reads the scalars: shaped `Number`, `Byte`, `String`,
/// `Special`, `InlineString`, `cite_value` and `import_statement` nodes.
pub proof fn scalar_fine(t: Tree, s: Seq<char>)
    requires
        shaped(t, s),
    ensures
        t.rule == Rule::Number ==> fine(number_value(t, s)),
        t.rule == Rule::Byte ==> fine(byte_value(t, s)),
        t.rule == Rule::StringNormal ==> fine(quoted_text(t, s)),
        t.rule == Rule::String ==> fine(string_value(t, s)),
        t.rule == Rule::Special ==> fine(special_value(t, s)),
        t.rule == Rule::InlineString ==> fine(inline_value(t, s)),
        t.rule == Rule::Key ==> fine(key_step(t, s)),
{
    let n = t.children.len() as int;
    if t.rule == Rule::Number {
        assert(shaped(t.children[0], s));
        assert(shaped(t.children[n - 1], s));
        if t.children[0].rule == Rule::Exponent {
            exponent_fine(t.children[0], s);
        } else {
            signed_fine(t.children[0], s);
        }
    } else if t.rule == Rule::Byte {
        assert(shaped(t.children[0], s));
        assert(shaped(t.children[n - 1], s));
    } else if t.rule == Rule::StringNormal {
        assert(shaped(t.children[0], s));
    } else if t.rule == Rule::String {
        assert(shaped(t.children[0], s));
        assert(shaped(t.children[n - 1], s));
        let body = t.children[n - 1];
        assert(shaped(body.children[0], s));
    } else if t.rule == Rule::Key {
        assert(shaped(t.children[0], s));
        let c = t.children[0];
        if c.rule == Rule::StringNormal {
            assert(shaped(c.children[0], s));
        }
    }
}

/// The builder reads the first `n` steps of a shaped path.
pub proof fn steps_fine(t: Tree, s: Seq<char>, n: nat)
    requires
        shaped(t, s),
        t.rule == Rule::namespace,
        n <= t.children.len(),
    ensures
        fine(path_steps(t, s, n)),
    decreases n,
{
    if n > 0 {
        steps_fine(t, s, (n - 1) as nat);
        assert(shaped(t.children[n - 1], s));
        scalar_fine(t.children[n - 1], s);
    }
}

/// The builder reads a shaped path, and a shaped reference and import.
pub proof fn path_fine(t: Tree, s: Seq<char>)
    requires
        shaped(t, s),
    ensures
        t.rule == Rule::namespace ==> fine(path_of(t, s)),
        t.rule == Rule::cite_value ==> fine(cite_value(t, s)),
        t.rule == Rule::import_statement ==> fine(import_value(t, s)),
        (t.rule == Rule::dict_head || t.rule == Rule::list_head) ==> fine(head_path(t, s)),
{
    let n = t.children.len() as int;
    if t.rule == Rule::namespace {
        steps_fine(t, s, t.children.len());
    } else if t.rule == Rule::cite_value {
        assert(shaped(t.children[0], s));
        steps_fine(t.children[0], s, t.children[0].children.len());
    } else if t.rule == Rule::import_statement {
        assert(shaped(t.children[0], s));
        assert(shaped(t.children[1], s));
        scalar_fine(t.children[0], s);
    } else if t.rule == Rule::dict_head || t.rule == Rule::list_head {
        assert(shaped(t.children[n - 1], s));
        steps_fine(t.children[n - 1], s, t.children[n - 1].children.len());
    }
}

/// The builder reads a shaped value.
pub proof fn data_fine(t: Tree, s: Seq<char>)
    requires
        shaped(t, s),
        t.rule == Rule::data,
    ensures
        fine(data_value(t, s)),
    decreases t, 0nat,
{
    let c = t.children[0];
    assert(shaped(c, s));
    scalar_fine(c, s);
    path_fine(c, s);
    if c.rule == Rule::dict_literal {
        pairs_fine(c, s, 0, c.children.len(), Seq::empty(), Seq::empty());
    } else if c.rule == Rule::list_literal {
        values_fine(c, s, 0, c.children.len());
    }
}

/// The builder reads the values that stand in a shaped node from `from` on,
/// where only values stand there.
pub proof fn values_fine(t: Tree, s: Seq<char>, from: nat, n: nat)
    requires
        shaped(t, s),
        n <= t.children.len(),
        forall|i: int| from <= i < t.children.len() ==> (#[trigger] t.children[i]).rule == Rule::data,
    ensures
        fine(values_in(t, s, from, n)),
    decreases t, 1nat, n,
{
    if n > from {
        values_fine(t, s, from, (n - 1) as nat);
        assert(shaped(t.children[n - 1], s));
        data_fine(t.children[n - 1], s);
    }
}

/// The builder reads a shaped pair.
pub proof fn pair_fine(t: Tree, s: Seq<char>)
    requires
        shaped(t, s),
        t.rule == Rule::dict_pair,
    ensures
        fine(pair_parts(t, s)),
    decreases t, 0nat,
{
    assert(shaped(t.children[0], s));
    assert(shaped(t.children[1], s));
    path_fine(t.children[0], s);
    data_fine(t.children[1], s);
}

/// The builder reads the pairs that stand in a shaped node from `from` on,
/// where only pairs stand there.
pub proof fn pairs_fine(
    t: Tree,
    s: Seq<char>,
    from: nat,
    n: nat,
    prefix: Seq<PathStep>,
    start: Seq<(Seq<char>, Val)>,
)
    requires
        shaped(t, s),
        n <= t.children.len(),
        forall|i: int|
            from <= i < t.children.len() ==> (#[trigger] t.children[i]).rule == Rule::dict_pair,
    ensures
        fine(pairs_into(t, s, from, n, prefix, start)),
    decreases t, 1nat, n,
{
    if n > from {
        pairs_fine(t, s, from, (n - 1) as nat, prefix, start);
        assert(shaped(t.children[n - 1], s));
        pair_fine(t.children[n - 1], s);
    }
}

/// The builder reads the entries of a shaped list scope.
pub proof fn scope_fine(t: Tree, s: Seq<char>, n: nat)
    requires
        shaped(t, s),
        t.rule == Rule::list_scope,
        n <= t.children.len(),
    ensures
        fine(scope_items(t, s, n)),
    decreases n,
{
    if n > 1 {
        scope_fine(t, s, (n - 1) as nat);
        let c = t.children[n - 1];
        assert(shaped(c, s));
        assert(c.rule == Rule::list_pair);
        if c.children[0].rule == Rule::Insert {
            pairs_fine(c, s, 1, c.children.len(), Seq::empty(), Seq::empty());
        } else {
            values_fine(c, s, 1, c.children.len());
        }
    }
}

/// The builder reads a shaped statement.
pub proof fn statement_fine(c: Tree, s: Seq<char>, root: Seq<(Seq<char>, Val)>)
    requires
        shaped(c, s),
        statement_rules().insert(Rule::EOI).contains(c.rule),
    ensures
        fine(statement_into(c, s, root)),
{
    if c.rule == Rule::dict_pair {
        pair_fine(c, s);
    } else if c.rule == Rule::dict_literal {
        pairs_fine(c, s, 0, c.children.len(), Seq::empty(), root);
    } else if c.rule == Rule::dict_scope {
        assert(shaped(c.children[0], s));
        path_fine(c.children[0], s);
        match head_path(c.children[0], s) {
            Ok(path) => {
                pairs_fine(
                    c,
                    s,
                    1,
                    c.children.len(),
                    path,
                    crate::document::set_at(root, path, 0, crate::document::Change::Touch),
                );
            },
            Err(_) => {},
        }
    } else if c.rule == Rule::list_scope {
        assert(shaped(c.children[0], s));
        path_fine(c.children[0], s);
        scope_fine(c, s, c.children.len());
    }
}

/// The builder reads the first `n` statements of a shaped program.
pub proof fn statements_fine(t: Tree, s: Seq<char>, n: nat)
    requires
        shaped(t, s),
        t.rule == Rule::program,
        n <= t.children.len(),
    ensures
        fine(statements_into(t, s, n)),
    decreases n,
{
    if n > 0 {
        statements_fine(t, s, (n - 1) as nat);
        assert(shaped(t.children[n - 1], s));
        match statements_into(t, s, (n - 1) as nat) {
            Ok(root) => statement_fine(t.children[n - 1], s, root),
            Err(_) => {},
        }
    }
}

/// The builder reads a shaped program.
pub proof fn document_fine(t: Tree, s: Seq<char>)
    requires
        shaped(t, s),
        t.rule == Rule::program,
    ensures
        fine(document(t, s)),
{
    statements_fine(t, s, t.children.len());
}

/// A literal error of a text that matches the grammar is an overflow.
///
/// Where a text matches rule `program`, the document of its parse tree is a
/// value, or the error of a number that does not fit: an integer or a
/// coefficient in 64 bits, an exponent in 32 bits, an index in the
/// machine's word. The same holds of the value of the parse tree of a text
/// that matches rule `data`.
pub proof fn literal_errors_are_overflows(s: Seq<char>, depth: nat)
    requires
        s.len() <= usize::MAX,
    ensures
        parses(Rule::program, s, depth) ==> fine(document(parse_tree(Rule::program, s, depth), s)),
        parses(Rule::data, s, depth) ==> fine(data_value(parse_tree(Rule::data, s, depth), s)),
{
    if parses(Rule::program, s, depth) {
        parse_tree_shaped(Rule::program, s, depth);
        document_fine(parse_tree(Rule::program, s, depth), s);
    }
    if parses(Rule::data, s, depth) {
        parse_tree_shaped(Rule::data, s, depth);
        data_fine(parse_tree(Rule::data, s, depth), s);
    }
}

} // verus!
