//! What an expression does at a position, whatever was gathered before:
//! the facts about [`eval`] from which the laws of the grammar are proved.

use vstd::prelude::*;
use crate::grammar::grammar;
use crate::peg::{eval, has_at, in_class, CharClass, Expr, State, Step, Tree};
use crate::rule::Rule;

verus! {

/// Expression `e` matches at `pos` up to `end` and adds the nodes `trees`,
/// in every state and both inside and outside a lookahead.
pub open spec fn yields(
    e: Expr,
    s: Seq<char>,
    pos: usize,
    d: nat,
    end: usize,
    trees: Seq<Tree>,
) -> bool {
    forall|q: bool, st: State|
        (#[trigger] eval(e, s, pos, d, q, st)).0 == Step::Match(end) && eval(
            e,
            s,
            pos,
            d,
            q,
            st,
        ).1.nodes =~= st.nodes + trees
}

/// Expression `e` fails at `pos` and leaves the nodes as they were, in every
/// state and both inside and outside a lookahead.
pub open spec fn refuses(e: Expr, s: Seq<char>, pos: usize, d: nat) -> bool {
    forall|q: bool, st: State|
        (#[trigger] eval(e, s, pos, d, q, st)).0 == Step::Fail && eval(e, s, pos, d, q, st).1.nodes
            =~= st.nodes
}

/// The node that rule `rule` leaves for a match from `start` to `end` with
/// the nodes `children` inside.
pub open spec fn node(rule: Rule, start: usize, end: usize, children: Seq<Tree>) -> Tree {
    Tree { rule, start, end, children }
}

/// `Any` takes the character at `pos`.
pub proof fn any_yields(s: Seq<char>, pos: usize, d: nat)
    requires
        pos < s.len() <= usize::MAX,
    ensures
        yields(Expr::Any, s, pos, d, (pos + 1) as usize, Seq::empty()),
{
}

/// A character matches where it stands.
pub proof fn char_yields(c: char, s: Seq<char>, pos: usize, d: nat)
    requires
        pos < s.len() <= usize::MAX,
        s[pos as int] == c,
    ensures
        yields(Expr::Char(c), s, pos, d, (pos + 1) as usize, Seq::empty()),
{
}

/// A character fails where another stands, and at the end.
pub proof fn char_refuses(c: char, s: Seq<char>, pos: usize, d: nat)
    requires
        pos >= s.len() || s[pos as int] != c,
    ensures
        refuses(Expr::Char(c), s, pos, d),
{
}

/// A range takes a character between its bounds.
pub proof fn range_yields(lo: char, hi: char, s: Seq<char>, pos: usize, d: nat)
    requires
        pos < s.len() <= usize::MAX,
        lo as u32 <= s[pos as int] as u32 <= hi as u32,
    ensures
        yields(Expr::Range(lo, hi), s, pos, d, (pos + 1) as usize, Seq::empty()),
{
}

/// A range fails at a character outside its bounds, and at the end.
pub proof fn range_refuses(lo: char, hi: char, s: Seq<char>, pos: usize, d: nat)
    requires
        pos >= s.len() || !(lo as u32 <= s[pos as int] as u32 <= hi as u32),
    ensures
        refuses(Expr::Range(lo, hi), s, pos, d),
{
}

/// A class takes one of its characters.
pub proof fn class_yields(k: CharClass, s: Seq<char>, pos: usize, d: nat)
    requires
        pos < s.len() <= usize::MAX,
        in_class(k, s[pos as int]),
    ensures
        yields(Expr::Class(k), s, pos, d, (pos + 1) as usize, Seq::empty()),
{
}

/// A class fails at a character that is none of its own, and at the end.
pub proof fn class_refuses(k: CharClass, s: Seq<char>, pos: usize, d: nat)
    requires
        pos >= s.len() || !in_class(k, s[pos as int]),
    ensures
        refuses(Expr::Class(k), s, pos, d),
{
}

/// A word matches where it stands.
pub proof fn lit_yields(w: &'static str, s: Seq<char>, pos: usize, d: nat)
    requires
        s.len() <= usize::MAX,
        has_at(s, pos, w@),
    ensures
        yields(Expr::Lit(w), s, pos, d, (pos + w@.len()) as usize, Seq::empty()),
{
}

/// A word does not stand where its first character does not.
pub proof fn lit_refuses_by_first(w: &'static str, s: Seq<char>, pos: usize, d: nat)
    requires
        w@.len() > 0,
        pos >= s.len() || s[pos as int] != w@[0],
    ensures
        refuses(Expr::Lit(w), s, pos, d),
{
    if has_at(s, pos, w@) {
        assert(s.subrange(pos as int, pos + w@.len())[0] == w@[0]);
    }
}

/// `a` then `b` matches where `a` matches and `b` matches behind it.
pub proof fn then_yields(
    a: Expr,
    b: Expr,
    s: Seq<char>,
    pos: usize,
    d: nat,
    mid: usize,
    end: usize,
    ta: Seq<Tree>,
    tb: Seq<Tree>,
)
    requires
        yields(a, s, pos, d, mid, ta),
        yields(b, s, mid, d, end, tb),
    ensures
        yields(Expr::Then(Box::new(a), Box::new(b)), s, pos, d, end, ta + tb),
{
    let e = Expr::Then(Box::new(a), Box::new(b));
    assert forall|q: bool, st: State|
        (#[trigger] eval(e, s, pos, d, q, st)).0 == Step::Match(end) && eval(
            e,
            s,
            pos,
            d,
            q,
            st,
        ).1.nodes =~= st.nodes + (ta + tb) by {
        let (ra, sa) = eval(a, s, pos, d, q, st);
        let (rb, sb) = eval(b, s, mid, d, q, sa);
        assert(ra == Step::Match(mid));
        assert(rb == Step::Match(end));
    }
}

/// `a` then `b` fails where `a` fails.
pub proof fn then_refuses_first(a: Expr, b: Expr, s: Seq<char>, pos: usize, d: nat)
    requires
        refuses(a, s, pos, d),
    ensures
        refuses(Expr::Then(Box::new(a), Box::new(b)), s, pos, d),
{
    let e = Expr::Then(Box::new(a), Box::new(b));
    assert forall|q: bool, st: State|
        (#[trigger] eval(e, s, pos, d, q, st)).0 == Step::Fail && eval(e, s, pos, d, q, st).1.nodes
            =~= st.nodes by {
        let (ra, sa) = eval(a, s, pos, d, q, st);
        assert(ra == Step::Fail);
    }
}

/// `a` then `b` fails where `b` fails behind `a`.
pub proof fn then_refuses_second(
    a: Expr,
    b: Expr,
    s: Seq<char>,
    pos: usize,
    d: nat,
    mid: usize,
    ta: Seq<Tree>,
)
    requires
        yields(a, s, pos, d, mid, ta),
        refuses(b, s, mid, d),
    ensures
        refuses(Expr::Then(Box::new(a), Box::new(b)), s, pos, d),
{
    let e = Expr::Then(Box::new(a), Box::new(b));
    assert forall|q: bool, st: State|
        (#[trigger] eval(e, s, pos, d, q, st)).0 == Step::Fail && eval(e, s, pos, d, q, st).1.nodes
            =~= st.nodes by {
        let (ra, sa) = eval(a, s, pos, d, q, st);
        let (rb, sb) = eval(b, s, mid, d, q, sa);
        assert(ra == Step::Match(mid));
        assert(rb == Step::Fail);
    }
}

/// `a` or `b` matches as `a` does where `a` matches.
pub proof fn or_yields_first(
    a: Expr,
    b: Expr,
    s: Seq<char>,
    pos: usize,
    d: nat,
    end: usize,
    t: Seq<Tree>,
)
    requires
        yields(a, s, pos, d, end, t),
    ensures
        yields(Expr::Or(Box::new(a), Box::new(b)), s, pos, d, end, t),
{
    let e = Expr::Or(Box::new(a), Box::new(b));
    assert forall|q: bool, st: State|
        (#[trigger] eval(e, s, pos, d, q, st)).0 == Step::Match(end) && eval(
            e,
            s,
            pos,
            d,
            q,
            st,
        ).1.nodes =~= st.nodes + t by {
        let (ra, sa) = eval(a, s, pos, d, q, st);
        assert(ra == Step::Match(end));
    }
}

/// `a` or `b` matches as `b` does where `a` fails.
pub proof fn or_yields_second(
    a: Expr,
    b: Expr,
    s: Seq<char>,
    pos: usize,
    d: nat,
    end: usize,
    t: Seq<Tree>,
)
    requires
        refuses(a, s, pos, d),
        yields(b, s, pos, d, end, t),
    ensures
        yields(Expr::Or(Box::new(a), Box::new(b)), s, pos, d, end, t),
{
    let e = Expr::Or(Box::new(a), Box::new(b));
    assert forall|q: bool, st: State|
        (#[trigger] eval(e, s, pos, d, q, st)).0 == Step::Match(end) && eval(
            e,
            s,
            pos,
            d,
            q,
            st,
        ).1.nodes =~= st.nodes + t by {
        let (ra, sa) = eval(a, s, pos, d, q, st);
        let (rb, sb) = eval(b, s, pos, d, q, sa);
        assert(ra == Step::Fail);
        assert(rb == Step::Match(end));
    }
}

/// `a` or `b` fails where both fail.
pub proof fn or_refuses(a: Expr, b: Expr, s: Seq<char>, pos: usize, d: nat)
    requires
        refuses(a, s, pos, d),
        refuses(b, s, pos, d),
    ensures
        refuses(Expr::Or(Box::new(a), Box::new(b)), s, pos, d),
{
    let e = Expr::Or(Box::new(a), Box::new(b));
    assert forall|q: bool, st: State|
        (#[trigger] eval(e, s, pos, d, q, st)).0 == Step::Fail && eval(e, s, pos, d, q, st).1.nodes
            =~= st.nodes by {
        let (ra, sa) = eval(a, s, pos, d, q, st);
        let (rb, sb) = eval(b, s, pos, d, q, sa);
        assert(ra == Step::Fail);
        assert(rb == Step::Fail);
    }
}

/// An option matches as its expression does.
pub proof fn opt_yields(a: Expr, s: Seq<char>, pos: usize, d: nat, end: usize, t: Seq<Tree>)
    requires
        yields(a, s, pos, d, end, t),
    ensures
        yields(Expr::Opt(Box::new(a)), s, pos, d, end, t),
{
    let e = Expr::Opt(Box::new(a));
    assert forall|q: bool, st: State|
        (#[trigger] eval(e, s, pos, d, q, st)).0 == Step::Match(end) && eval(
            e,
            s,
            pos,
            d,
            q,
            st,
        ).1.nodes =~= st.nodes + t by {
        let (ra, sa) = eval(a, s, pos, d, q, st);
        assert(ra == Step::Match(end));
    }
}

/// An option takes nothing where its expression fails.
pub proof fn opt_skips(a: Expr, s: Seq<char>, pos: usize, d: nat)
    requires
        refuses(a, s, pos, d),
    ensures
        yields(Expr::Opt(Box::new(a)), s, pos, d, pos, Seq::empty()),
{
    let e = Expr::Opt(Box::new(a));
    assert forall|q: bool, st: State|
        (#[trigger] eval(e, s, pos, d, q, st)).0 == Step::Match(pos) && eval(
            e,
            s,
            pos,
            d,
            q,
            st,
        ).1.nodes =~= st.nodes + Seq::<Tree>::empty() by {
        let (ra, sa) = eval(a, s, pos, d, q, st);
        assert(ra == Step::Fail);
    }
}

/// A repetition takes nothing where its expression fails.
pub proof fn star_stops(a: Expr, s: Seq<char>, pos: usize, d: nat)
    requires
        refuses(a, s, pos, d),
    ensures
        yields(Expr::Star(Box::new(a)), s, pos, d, pos, Seq::empty()),
{
    let e = Expr::Star(Box::new(a));
    assert forall|q: bool, st: State|
        (#[trigger] eval(e, s, pos, d, q, st)).0 == Step::Match(pos) && eval(
            e,
            s,
            pos,
            d,
            q,
            st,
        ).1.nodes =~= st.nodes + Seq::<Tree>::empty() by {
        let (ra, sa) = eval(a, s, pos, d, q, st);
        assert(ra == Step::Fail);
    }
}

/// A repetition takes what its expression takes and what it takes itself behind that.
pub proof fn star_steps(
    a: Expr,
    s: Seq<char>,
    pos: usize,
    d: nat,
    mid: usize,
    end: usize,
    ta: Seq<Tree>,
    tb: Seq<Tree>,
)
    requires
        pos < mid <= s.len(),
        yields(a, s, pos, d, mid, ta),
        yields(Expr::Star(Box::new(a)), s, mid, d, end, tb),
    ensures
        yields(Expr::Star(Box::new(a)), s, pos, d, end, ta + tb),
{
    let e = Expr::Star(Box::new(a));
    assert forall|q: bool, st: State|
        (#[trigger] eval(e, s, pos, d, q, st)).0 == Step::Match(end) && eval(
            e,
            s,
            pos,
            d,
            q,
            st,
        ).1.nodes =~= st.nodes + (ta + tb) by {
        let (ra, sa) = eval(a, s, pos, d, q, st);
        let (rb, sb) = eval(e, s, mid, d, q, sa);
        assert(ra == Step::Match(mid));
        assert(rb == Step::Match(end));
    }
}

/// A negative lookahead matches where its expression fails.
pub proof fn not_yields(a: Expr, s: Seq<char>, pos: usize, d: nat)
    requires
        refuses(a, s, pos, d),
    ensures
        yields(Expr::Not(Box::new(a)), s, pos, d, pos, Seq::empty()),
{
    let e = Expr::Not(Box::new(a));
    assert forall|q: bool, st: State|
        (#[trigger] eval(e, s, pos, d, q, st)).0 == Step::Match(pos) && eval(
            e,
            s,
            pos,
            d,
            q,
            st,
        ).1.nodes =~= st.nodes + Seq::<Tree>::empty() by {
        let (ra, sa) = eval(a, s, pos, d, true, st);
        assert(ra == Step::Fail);
    }
}

/// A negative lookahead fails where its expression matches.
pub proof fn not_refuses(a: Expr, s: Seq<char>, pos: usize, d: nat, end: usize, t: Seq<Tree>)
    requires
        yields(a, s, pos, d, end, t),
    ensures
        refuses(Expr::Not(Box::new(a)), s, pos, d),
{
    let e = Expr::Not(Box::new(a));
    assert forall|q: bool, st: State|
        (#[trigger] eval(e, s, pos, d, q, st)).0 == Step::Fail && eval(e, s, pos, d, q, st).1.nodes
            =~= st.nodes by {
        let (ra, sa) = eval(a, s, pos, d, true, st);
        assert(ra == Step::Match(end));
    }
}

/// A rule that matches leaves one node with the nodes of its expression inside.
pub proof fn node_yields(r: Rule, s: Seq<char>, pos: usize, d: nat, end: usize, kids: Seq<Tree>)
    requires
        d > 0,
        yields(grammar(r), s, pos, (d - 1) as nat, end, kids),
    ensures
        yields(Expr::Node(r), s, pos, d, end, seq![node(r, pos, end, kids)]),
{
    let e = Expr::Node(r);
    assert forall|q: bool, st: State|
        (#[trigger] eval(e, s, pos, d, q, st)).0 == Step::Match(end) && eval(
            e,
            s,
            pos,
            d,
            q,
            st,
        ).1.nodes =~= st.nodes + seq![node(r, pos, end, kids)] by {
        let inner = State { nodes: Seq::empty(), far: st.far, expected: st.expected };
        let (rb, sb) = eval(grammar(r), s, pos, (d - 1) as nat, q, inner);
        assert(rb == Step::Match(end));
        assert(sb.nodes =~= kids);
    }
}

/// A rule fails where its expression fails.
pub proof fn node_refuses(r: Rule, s: Seq<char>, pos: usize, d: nat)
    requires
        d > 0,
        refuses(grammar(r), s, pos, (d - 1) as nat),
    ensures
        refuses(Expr::Node(r), s, pos, d),
{
    let e = Expr::Node(r);
    assert forall|q: bool, st: State|
        (#[trigger] eval(e, s, pos, d, q, st)).0 == Step::Fail && eval(e, s, pos, d, q, st).1.nodes
            =~= st.nodes by {
        let inner = State { nodes: Seq::empty(), far: st.far, expected: st.expected };
        let (rb, sb) = eval(grammar(r), s, pos, (d - 1) as nat, q, inner);
        assert(rb == Step::Fail);
    }
}

/// A rule without a node matches as its expression does.
pub proof fn inline_yields(r: Rule, s: Seq<char>, pos: usize, d: nat, end: usize, t: Seq<Tree>)
    requires
        d > 0,
        yields(grammar(r), s, pos, (d - 1) as nat, end, t),
    ensures
        yields(Expr::Inline(r), s, pos, d, end, t),
{
    let e = Expr::Inline(r);
    assert forall|q: bool, st: State|
        (#[trigger] eval(e, s, pos, d, q, st)).0 == Step::Match(end) && eval(
            e,
            s,
            pos,
            d,
            q,
            st,
        ).1.nodes =~= st.nodes + t by {
        let (rb, sb) = eval(grammar(r), s, pos, (d - 1) as nat, q, st);
        assert(rb == Step::Match(end));
    }
}

/// A rule without a node fails where its expression fails.
pub proof fn inline_refuses(r: Rule, s: Seq<char>, pos: usize, d: nat)
    requires
        d > 0,
        refuses(grammar(r), s, pos, (d - 1) as nat),
    ensures
        refuses(Expr::Inline(r), s, pos, d),
{
    let e = Expr::Inline(r);
    assert forall|q: bool, st: State|
        (#[trigger] eval(e, s, pos, d, q, st)).0 == Step::Fail && eval(e, s, pos, d, q, st).1.nodes
            =~= st.nodes by {
        let (rb, sb) = eval(grammar(r), s, pos, (d - 1) as nat, q, st);
        assert(rb == Step::Fail);
    }
}

} // verus!
