//! Which nodes stand inside which: the nodes inside a node are of the rules
//! that the expression of the node's rule names.

use vstd::prelude::*;
use crate::grammar::grammar;
use crate::parser::{parse_tree, parses};
use crate::peg::{eval, Expr, State, Step, Tree};
use crate::rule::Rule;

verus! {

/// Whether the state `after` holds the nodes of the state `before` and,
/// behind them, only nodes of the rules `rules`.
pub open spec fn grown(before: State, after: State, rules: Set<Rule>) -> bool {
    &&& before.nodes.len() <= after.nodes.len()
    &&& forall|i: int| 0 <= i < before.nodes.len() ==> after.nodes[i] == before.nodes[i]
    &&& forall|i: int|
        before.nodes.len() <= i < after.nodes.len() ==> rules.contains(
            (#[trigger] after.nodes[i]).rule,
        )
}

/// The rules that leave no node, whatever they match: white space,
/// comments, separators and the sign between key and value.
pub open spec fn is_silent(r: Rule) -> bool {
    r == Rule::WHITESPACE || r == Rule::COMMENT || r == Rule::MultiLineComment || r
        == Rule::LineComment || r == Rule::RestOfLine || r == Rule::SEPARATOR || r == Rule::Assign
}

/// The rules of the nodes that a statement leaves.
pub open spec fn statement_rules() -> Set<Rule> {
    set![
        Rule::EmptyLine,
        Rule::dict_literal,
        Rule::dict_scope,
        Rule::dict_pair,
        Rule::list_scope,
    ]
}

/// The rules of which an expression can add nodes, read off the expression:
/// those that it names as nodes. A rule that it names without a node counts
/// for nothing if it is silent, for the rules of a statement's nodes if it
/// is `statement`, and for every rule otherwise.
pub open spec fn labels(e: Expr) -> Set<Rule>
    decreases e,
{
    match e {
        Expr::Then(a, b) => labels(*a).union(labels(*b)),
        Expr::Or(a, b) => labels(*a).union(labels(*b)),
        Expr::Opt(a) => labels(*a),
        Expr::Star(a) => labels(*a),
        Expr::Node(r) => set![r],
        Expr::Inline(r) => if is_silent(r) {
            Set::empty()
        } else if r == Rule::statement {
            statement_rules()
        } else {
            Set::full()
        },
        _ => Set::empty(),
    }
}

/// The expressions of the silent rules name no node.
pub proof fn silent_bodies(r: Rule)
    requires
        is_silent(r),
    ensures
        labels(grammar(r)) == Set::<Rule>::empty(),
{
    reveal_with_fuel(labels, 8);
    assert(labels(grammar(r)) =~= Set::<Rule>::empty());
}

/// The expression of rule `statement` names the rules of a statement's
/// nodes.
pub proof fn statement_body()
    ensures
        labels(grammar(Rule::statement)) == statement_rules(),
{
    reveal_with_fuel(labels, 12);
    assert(labels(grammar(Rule::statement)) =~= statement_rules());
}

/// An attempt that does not give up keeps the nodes that were there and
/// adds only nodes of the rules that the expression names; one that fails
/// adds none. An option and a repetition never fail. A match ends in the
/// text, no earlier than it started.
pub proof fn eval_labels(e: Expr, s: Seq<char>, pos: usize, d: nat, q: bool, st: State)
    requires
        pos <= s.len() <= usize::MAX,
    ensures
        eval(e, s, pos, d, q, st).0 is Fail ==> eval(e, s, pos, d, q, st).1.nodes == st.nodes,
        (e is Star || e is Opt) ==> !(eval(e, s, pos, d, q, st).0 is Fail),
        eval(e, s, pos, d, q, st).0 matches Step::Match(end) ==> pos <= end <= s.len() && grown(
            st,
            eval(e, s, pos, d, q, st).1,
            labels(e),
        ),
    decreases d, e, s.len() - pos,
{
    let out = eval(e, s, pos, d, q, st);
    match e {
        Expr::Then(a, b) => {
            eval_labels(*a, s, pos, d, q, st);
            let (ra, sa) = eval(*a, s, pos, d, q, st);
            if let Step::Match(mid) = ra {
                eval_labels(*b, s, mid, d, q, sa);
            }
            if out.0 is Fail {
                assert(out.1.nodes =~= st.nodes);
            }
        },
        Expr::Or(a, b) => {
            eval_labels(*a, s, pos, d, q, st);
            let (ra, sa) = eval(*a, s, pos, d, q, st);
            if ra is Fail {
                eval_labels(*b, s, pos, d, q, sa);
            }
            if out.0 is Fail {
                assert(out.1.nodes =~= st.nodes);
            }
        },
        Expr::Opt(a) => {
            eval_labels(*a, s, pos, d, q, st);
        },
        Expr::Star(a) => {
            eval_labels(*a, s, pos, d, q, st);
            let (ra, sa) = eval(*a, s, pos, d, q, st);
            if let Step::Match(next) = ra {
                if pos < next <= s.len() {
                    eval_labels(e, s, next, d, q, sa);
                }
            }
        },
        Expr::Not(a) => {
            if out.0 is Fail {
                assert(out.1.nodes =~= st.nodes);
            }
        },
        Expr::Node(r) => {
            if d > 0 {
                let inner = State { nodes: Seq::empty(), far: st.far, expected: st.expected };
                eval_labels(grammar(r), s, pos, (d - 1) as nat, q, inner);
            }
            if out.0 is Fail {
                assert(out.1.nodes =~= st.nodes);
            }
        },
        Expr::Inline(r) => {
            if d > 0 {
                eval_labels(grammar(r), s, pos, (d - 1) as nat, q, st);
                if is_silent(r) {
                    silent_bodies(r);
                } else if r == Rule::statement {
                    statement_body();
                }
            }
            if out.0 is Fail {
                assert(out.1.nodes =~= st.nodes);
            }
        },
        _ => {
            if out.0 is Fail {
                assert(out.1.nodes =~= st.nodes);
            }
        },
    }
}

/// Whether the nodes inside `t`, and so on down the tree, are of the rules
/// that the expression of the rule of the node around them names.
pub open spec fn well_labelled(t: Tree) -> bool
    decreases t,
{
    forall|i: int|
        0 <= i < t.children.len() ==> labels(grammar(t.rule)).contains(
            (#[trigger] t.children[i]).rule,
        ) && well_labelled(t.children[i])
}

/// Whether all of the nodes are well labelled.
pub open spec fn all_well_labelled(ts: Seq<Tree>) -> bool {
    forall|i: int| 0 <= i < ts.len() ==> well_labelled(#[trigger] ts[i])
}

/// An attempt adds only well-labelled nodes.
pub proof fn eval_well_labelled(e: Expr, s: Seq<char>, pos: usize, d: nat, q: bool, st: State)
    requires
        pos <= s.len() <= usize::MAX,
        all_well_labelled(st.nodes),
    ensures
        all_well_labelled(eval(e, s, pos, d, q, st).1.nodes),
    decreases d, e, s.len() - pos,
{
    match e {
        Expr::Then(a, b) => {
            eval_well_labelled(*a, s, pos, d, q, st);
            eval_labels(*a, s, pos, d, q, st);
            let (ra, sa) = eval(*a, s, pos, d, q, st);
            if let Step::Match(mid) = ra {
                eval_well_labelled(*b, s, mid, d, q, sa);
            }
        },
        Expr::Or(a, b) => {
            eval_well_labelled(*a, s, pos, d, q, st);
            let (ra, sa) = eval(*a, s, pos, d, q, st);
            if ra is Fail {
                eval_well_labelled(*b, s, pos, d, q, sa);
            }
        },
        Expr::Opt(a) => {
            eval_well_labelled(*a, s, pos, d, q, st);
        },
        Expr::Star(a) => {
            eval_well_labelled(*a, s, pos, d, q, st);
            eval_labels(*a, s, pos, d, q, st);
            let (ra, sa) = eval(*a, s, pos, d, q, st);
            if let Step::Match(next) = ra {
                if pos < next <= s.len() {
                    eval_well_labelled(e, s, next, d, q, sa);
                }
            }
        },
        Expr::Node(r) => {
            if d > 0 {
                let inner = State { nodes: Seq::empty(), far: st.far, expected: st.expected };
                eval_well_labelled(grammar(r), s, pos, (d - 1) as nat, q, inner);
                eval_labels(grammar(r), s, pos, (d - 1) as nat, q, inner);
                let (rb, sb) = eval(grammar(r), s, pos, (d - 1) as nat, q, inner);
                if let Step::Match(end) = rb {
                    let t = Tree { rule: r, start: pos, end: end, children: sb.nodes };
                    assert(well_labelled(t)) by {
                        assert forall|i: int| 0 <= i < t.children.len() implies labels(
                            grammar(t.rule),
                        ).contains((#[trigger] t.children[i]).rule) && well_labelled(
                            t.children[i],
                        ) by {
                            assert(well_labelled(sb.nodes[i]));
                        }
                    }
                    let after = st.nodes.push(t);
                    assert forall|i: int| 0 <= i < after.len() implies well_labelled(
                        #[trigger] after[i],
                    ) by {
                        if i < st.nodes.len() {
                            assert(well_labelled(st.nodes[i]));
                        }
                    }
                }
            }
        },
        Expr::Inline(r) => {
            if d > 0 {
                eval_well_labelled(grammar(r), s, pos, (d - 1) as nat, q, st);
            }
        },
        _ => {},
    }
}

/// In the parse tree of a text, the nodes inside a node are of the rules
/// that the expression of the node's rule names: inside a `list_literal`
/// stand only `data` nodes, inside a `namespace` only `Key` nodes, and so
/// on for every rule.
pub proof fn parse_tree_well_labelled(rule: Rule, s: Seq<char>, depth: nat)
    requires
        s.len() <= usize::MAX,
        parses(rule, s, depth),
    ensures
        well_labelled(parse_tree(rule, s, depth)),
{
    let st = State { nodes: Seq::empty(), far: 0, expected: Seq::empty() };
    eval_well_labelled(Expr::Node(rule), s, 0, depth, false, st);
    eval_labels(Expr::Node(rule), s, 0, depth, false, st);
    let out = eval(Expr::Node(rule), s, 0, depth, false, st);
    assert(well_labelled(out.1.nodes[0]));
}

/// The rules that the expressions of some rules name, written out.
pub proof fn labels_of_rules()
    ensures
        labels(grammar(Rule::list_literal)) == set![Rule::data],
        labels(grammar(Rule::dict_literal)) == set![Rule::dict_pair],
        labels(grammar(Rule::dict_pair)) == set![Rule::namespace, Rule::data],
        labels(grammar(Rule::namespace)) == set![Rule::Key],
        labels(grammar(Rule::Key)) == set![Rule::StringNormal, Rule::SYMBOL, Rule::Integer],
        labels(grammar(Rule::Integer)) == Set::<Rule>::empty(),
        labels(grammar(Rule::InlineString)) == Set::<Rule>::empty(),
        labels(grammar(Rule::StringQuotation)) == Set::<Rule>::empty(),
{
    reveal_with_fuel(labels, 12);
    assert(labels(grammar(Rule::list_literal)) =~= set![Rule::data]);
    assert(labels(grammar(Rule::dict_literal)) =~= set![Rule::dict_pair]);
    assert(labels(grammar(Rule::dict_pair)) =~= set![Rule::namespace, Rule::data]);
    assert(labels(grammar(Rule::namespace)) =~= set![Rule::Key]);
    assert(labels(grammar(Rule::Key)) =~= set![Rule::StringNormal, Rule::SYMBOL, Rule::Integer]);
    assert(labels(grammar(Rule::Integer)) =~= Set::<Rule>::empty());
    assert(labels(grammar(Rule::InlineString)) =~= Set::<Rule>::empty());
    assert(labels(grammar(Rule::StringQuotation)) =~= Set::<Rule>::empty());
}

} // verus!
