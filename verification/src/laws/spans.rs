//! Every node of a parse tree spans a part of the text.

use vstd::prelude::*;
use crate::grammar::grammar;
use crate::parser::{parse_outcome, parse_tree, parses};
use crate::peg::{eval, Expr, State, Step, Tree};
use crate::rule::Rule;

verus! {

/// Whether a node and all nodes inside it span parts of a text of `n`
/// characters: each starts no later than it ends, and ends in the text.
pub open spec fn in_bounds(t: Tree, n: nat) -> bool
    decreases t,
{
    &&& t.start <= t.end <= n
    &&& forall|i: int| 0 <= i < t.children.len() ==> in_bounds(#[trigger] t.children[i], n)
}

/// Whether all of the nodes span parts of a text of `n` characters.
pub open spec fn all_in_bounds(ts: Seq<Tree>, n: nat) -> bool {
    forall|i: int| 0 <= i < ts.len() ==> in_bounds(#[trigger] ts[i], n)
}

/// Matching an expression ends in the text and adds only nodes that span
/// parts of the text.
pub proof fn eval_in_bounds(e: Expr, s: Seq<char>, pos: usize, d: nat, q: bool, st: State)
    requires
        pos <= s.len() <= usize::MAX,
        all_in_bounds(st.nodes, s.len()),
    ensures
        all_in_bounds(eval(e, s, pos, d, q, st).1.nodes, s.len()),
        eval(e, s, pos, d, q, st).0 matches Step::Match(end) ==> pos <= end <= s.len(),
    decreases d, e, s.len() - pos,
{
    match e {
        Expr::Then(a, b) => {
            eval_in_bounds(*a, s, pos, d, q, st);
            let (ra, sa) = eval(*a, s, pos, d, q, st);
            if let Step::Match(mid) = ra {
                eval_in_bounds(*b, s, mid, d, q, sa);
            }
        },
        Expr::Or(a, b) => {
            eval_in_bounds(*a, s, pos, d, q, st);
            let (ra, sa) = eval(*a, s, pos, d, q, st);
            if ra is Fail {
                eval_in_bounds(*b, s, pos, d, q, sa);
            }
        },
        Expr::Opt(a) => {
            eval_in_bounds(*a, s, pos, d, q, st);
        },
        Expr::Star(a) => {
            eval_in_bounds(*a, s, pos, d, q, st);
            let (ra, sa) = eval(*a, s, pos, d, q, st);
            if let Step::Match(next) = ra {
                if pos < next <= s.len() {
                    eval_in_bounds(e, s, next, d, q, sa);
                }
            }
        },
        Expr::Not(a) => {},
        Expr::Node(r) => {
            if d > 0 {
                let inner = State { nodes: Seq::empty(), far: st.far, expected: st.expected };
                eval_in_bounds(grammar(r), s, pos, (d - 1) as nat, q, inner);
                let (rb, sb) = eval(grammar(r), s, pos, (d - 1) as nat, q, inner);
                if let Step::Match(end) = rb {
                    let t = Tree { rule: r, start: pos, end: end, children: sb.nodes };
                    assert(in_bounds(t, s.len()));
                    let after = st.nodes.push(t);
                    assert forall|i: int| 0 <= i < after.len() implies in_bounds(
                        #[trigger] after[i],
                        s.len(),
                    ) by {
                        if i < st.nodes.len() {
                            assert(in_bounds(st.nodes[i], s.len()));
                        }
                    }
                }
            }
        },
        Expr::Inline(r) => {
            if d > 0 {
                eval_in_bounds(grammar(r), s, pos, (d - 1) as nat, q, st);
            }
        },
        _ => {},
    }
}

/// Every node of the parse tree of a text spans a part of the text, and the
/// root starts at the start of the text.
pub proof fn parse_tree_in_bounds(rule: Rule, s: Seq<char>, depth: nat)
    requires
        s.len() <= usize::MAX,
        parses(rule, s, depth),
    ensures
        in_bounds(parse_tree(rule, s, depth), s.len()),
        parse_tree(rule, s, depth).rule == rule,
        parse_tree(rule, s, depth).start == 0,
        parse_outcome(rule, s, depth).1.nodes.len() == 1,
{
    let st = State { nodes: Seq::empty(), far: 0, expected: Seq::empty() };
    eval_in_bounds(Expr::Node(rule), s, 0, depth, false, st);
}

} // verus!
