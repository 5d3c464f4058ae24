//! Ordered-choice expressions and their meaning.
//!
//! A rule of the grammar is an [`Expr`]. [`eval`] says what an expression
//! matches at a position of a text, which nodes the match adds to the parse
//! tree, and how far the attempt that went furthest came before it failed.
//! [`run`] is the matcher: it computes exactly what [`eval`] says.

use vstd::prelude::*;
use crate::chars::{
    is_space_separator, is_xid_continue, is_xid_start, space_separator, xid_continue, xid_start,
};
use crate::grammar::{grammar, rule_expr};
use crate::rule::Rule;

verus! {

/// A class of characters that Unicode defines.
#[derive(Clone, Copy, Debug, PartialEq, Eq, Structural)]
pub enum CharClass {
    XidStart,
    XidContinue,
    SpaceSeparator,
}

/// An ordered-choice parsing expression.
#[derive(Debug)]
pub enum Expr {
    /// Any one character.
    Any,
    /// The start of the text, consuming nothing.
    Start,
    /// The end of the text, consuming nothing.
    End,
    /// This character.
    Char(char),
    /// One character between the two bounds, both included.
    Range(char, char),
    /// These characters, in this order.
    Lit(&'static str),
    /// One character of the class.
    Class(CharClass),
    /// The first expression, then the second where the first ended.
    Then(Box<Expr>, Box<Expr>),
    /// The first expression, or else the second at the same position.
    Or(Box<Expr>, Box<Expr>),
    /// The expression, or nothing where it fails.
    Opt(Box<Expr>),
    /// The expression as often as it matches and moves forward.
    Star(Box<Expr>),
    /// Succeeds, consuming nothing, exactly where the expression fails.
    Not(Box<Expr>),
    /// The rule's expression; a match becomes a node of the parse tree.
    Node(Rule),
    /// The rule's expression, with no node of its own.
    Inline(Rule),
}

/// A node of a parse tree: the rule that matched, the span of characters it
/// matched (`start` included, `end` excluded), and the nodes matched inside.
#[derive(Debug)]
pub struct Pair {
    pub rule: Rule,
    pub start: usize,
    pub end: usize,
    pub children: Vec<Pair>,
}

/// The mathematical value of a [`Pair`].
pub struct Tree {
    pub rule: Rule,
    pub start: usize,
    pub end: usize,
    pub children: Seq<Tree>,
}

/// The tree that a pair stands for.
pub open spec fn tree_of(p: Pair) -> Tree
    decreases p,
{
    Tree {
        rule: p.rule,
        start: p.start,
        end: p.end,
        children: Seq::new(
            p.children@.len(),
            |i: int|
                if 0 <= i < p.children@.len() {
                    tree_of(p.children@[i])
                } else {
                    arbitrary()
                },
        ),
    }
}

/// The trees that a list of pairs stands for.
pub open spec fn forest(ps: Seq<Pair>) -> Seq<Tree> {
    Seq::new(ps.len(), |i: int| tree_of(ps[i]))
}

impl View for Pair {
    type V = Tree;

    open spec fn view(&self) -> Tree {
        tree_of(*self)
    }
}

/// How an attempt to match ended.
#[derive(Clone, Copy, Debug, PartialEq, Eq, Structural)]
pub enum Step {
    /// The expression matched up to this position (excluded).
    Match(usize),
    /// The expression does not match here.
    Fail,
    /// Rules were nested deeper than the limit allows.
    Abort,
}

/// What a parse has gathered so far: the nodes matched at the current level
/// of the tree, and the rules that failed at the furthest position at which
/// any rule failed.
pub struct State {
    pub nodes: Seq<Tree>,
    pub far: usize,
    pub expected: Seq<Rule>,
}

/// The record of the furthest failures, as the matcher holds it.
#[derive(Debug)]
pub struct Trace {
    pub far: usize,
    pub expected: Vec<Rule>,
}

/// Whether a character is one of the letters `A` to `Z` and `a` to `z`.
pub open spec fn is_letter(c: char) -> bool {
    ('a' as u32 <= c as u32 <= 'z' as u32) || ('A' as u32 <= c as u32 <= 'Z' as u32)
}

/// Whether a character is one of the digits `0` to `9`.
pub open spec fn is_digit(c: char) -> bool {
    '0' as u32 <= c as u32 <= '9' as u32
}

/// Whether a character belongs to a class. Among the ASCII characters the
/// members are listed here; beyond them the Unicode tables decide.
pub open spec fn in_class(k: CharClass, c: char) -> bool {
    match k {
        CharClass::XidStart => if (c as u32) < 0x80 {
            is_letter(c)
        } else {
            xid_start(c)
        },
        CharClass::XidContinue => if (c as u32) < 0x80 {
            is_letter(c) || is_digit(c) || c == '_'
        } else {
            xid_continue(c)
        },
        CharClass::SpaceSeparator => if (c as u32) < 0x80 {
            c == ' '
        } else {
            space_separator(c)
        },
    }
}

/// Whether the text holds the characters `w` from position `pos` on.
pub open spec fn has_at(s: Seq<char>, pos: usize, w: Seq<char>) -> bool {
    pos + w.len() <= s.len() && s.subrange(pos as int, pos + w.len()) == w
}

/// The state after rule `rule` failed at `pos`: the failure is kept if no
/// rule failed further on, and it replaces those that failed earlier.
pub open spec fn note(st: State, pos: usize, rule: Rule, quiet: bool) -> State {
    if quiet {
        st
    } else if st.expected.len() == 0 || pos > st.far {
        State { nodes: st.nodes, far: pos, expected: seq![rule] }
    } else if pos == st.far && !st.expected.contains(rule) {
        State { nodes: st.nodes, far: st.far, expected: st.expected.push(rule) }
    } else {
        st
    }
}

/// The outcome of one character test at `pos`.
pub open spec fn one(ok: bool, pos: usize) -> Step {
    if ok {
        Step::Match((pos + 1) as usize)
    } else {
        Step::Fail
    }
}

/// What expression `e` does at position `pos` of text `s`.
///
/// `depth` is the number of nested rules still allowed; `quiet` is set inside
/// a negative lookahead, where failures are not recorded. The result is the
/// outcome and the state after it. A failed attempt leaves the nodes as they
/// were.
pub open spec fn eval(e: Expr, s: Seq<char>, pos: usize, depth: nat, quiet: bool, st: State) -> (
    Step,
    State,
)
    decreases depth, e, s.len() - pos,
{
    match e {
        Expr::Any => (one(pos < s.len(), pos), st),
        Expr::Start => (
            if pos == 0 {
                Step::Match(pos)
            } else {
                Step::Fail
            },
            st,
        ),
        Expr::End => (
            if pos >= s.len() {
                Step::Match(pos)
            } else {
                Step::Fail
            },
            st,
        ),
        Expr::Char(c) => (one(pos < s.len() && s[pos as int] == c, pos), st),
        Expr::Range(lo, hi) => (
            one(pos < s.len() && lo as u32 <= s[pos as int] as u32 <= hi as u32, pos),
            st,
        ),
        Expr::Lit(w) => (
            if has_at(s, pos, w@) {
                Step::Match((pos + w@.len()) as usize)
            } else {
                Step::Fail
            },
            st,
        ),
        Expr::Class(k) => (one(pos < s.len() && in_class(k, s[pos as int]), pos), st),
        Expr::Then(a, b) => {
            let (ra, sa) = eval(*a, s, pos, depth, quiet, st);
            match ra {
                Step::Match(mid) => {
                    let (rb, sb) = eval(*b, s, mid, depth, quiet, sa);
                    match rb {
                        Step::Fail => (
                            Step::Fail,
                            State { nodes: st.nodes, far: sb.far, expected: sb.expected },
                        ),
                        _ => (rb, sb),
                    }
                },
                _ => (ra, sa),
            }
        },
        Expr::Or(a, b) => {
            let (ra, sa) = eval(*a, s, pos, depth, quiet, st);
            match ra {
                Step::Fail => eval(*b, s, pos, depth, quiet, sa),
                _ => (ra, sa),
            }
        },
        Expr::Opt(a) => {
            let (ra, sa) = eval(*a, s, pos, depth, quiet, st);
            match ra {
                Step::Fail => (Step::Match(pos), sa),
                _ => (ra, sa),
            }
        },
        Expr::Star(a) => {
            let (ra, sa) = eval(*a, s, pos, depth, quiet, st);
            match ra {
                Step::Match(next) => if pos < next <= s.len() {
                    eval(e, s, next, depth, quiet, sa)
                } else {
                    (Step::Match(pos), sa)
                },
                Step::Fail => (Step::Match(pos), sa),
                Step::Abort => (Step::Abort, sa),
            }
        },
        Expr::Not(a) => {
            let (ra, sa) = eval(*a, s, pos, depth, true, st);
            match ra {
                Step::Match(_) => (Step::Fail, st),
                Step::Fail => (Step::Match(pos), st),
                Step::Abort => (Step::Abort, st),
            }
        },
        Expr::Node(r) => if depth == 0 {
            (Step::Abort, st)
        } else {
            let inner = State { nodes: Seq::empty(), far: st.far, expected: st.expected };
            let (rb, sb) = eval(grammar(r), s, pos, (depth - 1) as nat, quiet, inner);
            match rb {
                Step::Match(end) => (
                    rb,
                    State {
                        nodes: st.nodes.push(
                            Tree { rule: r, start: pos, end: end, children: sb.nodes },
                        ),
                        far: sb.far,
                        expected: sb.expected,
                    },
                ),
                Step::Fail => (
                    Step::Fail,
                    note(
                        State { nodes: st.nodes, far: sb.far, expected: sb.expected },
                        pos,
                        r,
                        quiet,
                    ),
                ),
                Step::Abort => (Step::Abort, st),
            }
        },
        Expr::Inline(r) => if depth == 0 {
            (Step::Abort, st)
        } else {
            eval(grammar(r), s, pos, (depth - 1) as nat, quiet, st)
        },
    }
}

/// The state that the matcher's nodes and trace stand for.
pub open spec fn state_of(nodes: Vec<Pair>, tr: Trace) -> State {
    State { nodes: forest(nodes@), far: tr.far, expected: tr.expected@ }
}

/// Whether a character belongs to a class.
fn class_has(k: CharClass, c: char) -> (r: bool)
    ensures
        r == in_class(k, c),
{
    let u: u32 = c as u32;
    let letter: bool = ('a' as u32 <= u && u <= 'z' as u32) || ('A' as u32 <= u && u <= 'Z' as u32);
    let digit: bool = '0' as u32 <= u && u <= '9' as u32;
    match k {
        CharClass::XidStart => if u < 0x80 {
            letter
        } else {
            is_xid_start(c)
        },
        CharClass::XidContinue => if u < 0x80 {
            letter || digit || c == '_'
        } else {
            is_xid_continue(c)
        },
        CharClass::SpaceSeparator => if u < 0x80 {
            c == ' '
        } else {
            is_space_separator(c)
        },
    }
}

/// Whether `input` holds the characters of `w` from `pos` on.
fn lit_at(input: &Vec<char>, pos: usize, w: &str) -> (r: bool)
    requires
        pos <= input.len(),
    ensures
        r == has_at(input@, pos, w@),
{
    let n: usize = w.unicode_len();
    if n > input.len() - pos {
        return false;
    }
    let mut i: usize = 0;
    while i < n
        invariant
            n == w@.len(),
            pos + n <= input.len(),
            i <= n,
            input@.subrange(pos as int, pos + i) == w@.take(i as int),
        decreases n - i,
    {
        if input[pos + i] != w.get_char(i) {
            assert(input@.subrange(pos as int, pos + n)[i as int] != w@[i as int]);
            return false;
        }
        i += 1;
        assert(input@.subrange(pos as int, pos + i) =~= w@.take(i as int)) by {
            assert(input@.subrange(pos as int, pos + i - 1) == w@.take(i - 1));
            assert forall|j: int| 0 <= j < i implies input@.subrange(pos as int, pos + i)[j]
                == w@.take(i as int)[j] by {
                if j < i - 1 {
                    assert(input@.subrange(pos as int, pos + i - 1)[j] == w@.take(i - 1)[j]);
                }
            }
        }
    }
    assert(w@.take(n as int) =~= w@);
    true
}

/// The outcome of one character test at `pos`.
fn step_if(ok: bool, pos: usize) -> (r: Step)
    requires
        ok ==> pos < usize::MAX,
    ensures
        r == one(ok, pos),
{
    if ok {
        Step::Match(pos + 1)
    } else {
        Step::Fail
    }
}

/// Records that `rule` failed at `pos`.
fn note_failure(tr: &mut Trace, pos: usize, rule: Rule, quiet: bool, Ghost(nodes): Ghost<Seq<Tree>>)
    ensures
        (State { nodes, far: final(tr).far, expected: final(tr).expected@ }) == note(
            State { nodes, far: old(tr).far, expected: old(tr).expected@ },
            pos,
            rule,
            quiet,
        ),
{
    if quiet {
        return ;
    }
    if tr.expected.len() == 0 || pos > tr.far {
        tr.far = pos;
        tr.expected = Vec::new();
        tr.expected.push(rule);
        assert(tr.expected@ =~= seq![rule]);
        return ;
    }
    if pos == tr.far {
        let mut i: usize = 0;
        while i < tr.expected.len()
            invariant
                !quiet,
                *tr == *old(tr),
                pos == tr.far,
                i <= tr.expected.len(),
                forall|j: int| 0 <= j < i ==> tr.expected@[j] != rule,
            decreases tr.expected.len() - i,
        {
            if tr.expected[i] == rule {
                assert(tr.expected@.contains(rule));
                return ;
            }
            i += 1;
        }
        assert(!tr.expected@.contains(rule));
        tr.expected.push(rule);
    }
}

/// Matches expression `e` at position `pos` of `input`.
///
/// Nodes of the tree are added to `nodes`, failures are recorded in `tr`. The
/// outcome and both records are those that [`eval`] gives.
pub fn run(
    e: &Expr,
    input: &Vec<char>,
    pos: usize,
    depth: usize,
    quiet: bool,
    nodes: &mut Vec<Pair>,
    tr: &mut Trace,
) -> (r: Step)
    requires
        pos <= input.len(),
    ensures
        r == eval(*e, input@, pos, depth as nat, quiet, state_of(*old(nodes), *old(tr))).0,
        !(r is Abort) ==> state_of(*final(nodes), *final(tr)) == eval(
            *e,
            input@,
            pos,
            depth as nat,
            quiet,
            state_of(*old(nodes), *old(tr)),
        ).1,
        r matches Step::Match(end) ==> pos <= end <= input.len(),
        old(nodes)@.len() <= final(nodes)@.len(),
        final(nodes)@.subrange(0, old(nodes)@.len() as int) == old(nodes)@,
        r is Fail ==> final(nodes)@ == old(nodes)@,
        quiet ==> final(tr).far == old(tr).far && final(tr).expected@ == old(tr).expected@,
        final(tr).far <= input.len() || final(tr).far == old(tr).far,
    decreases depth, *e, input.len() - pos,
{
    match e {
        Expr::Any => step_if(pos < input.len(), pos),
        Expr::Start => if pos == 0 {
            Step::Match(pos)
        } else {
            Step::Fail
        },
        Expr::End => if pos >= input.len() {
            Step::Match(pos)
        } else {
            Step::Fail
        },
        Expr::Char(c) => step_if(pos < input.len() && input[pos] == *c, pos),
        Expr::Range(lo, hi) => step_if(
            pos < input.len() && *lo as u32 <= input[pos] as u32 && input[pos] as u32 <= *hi as u32,
            pos,
        ),
        Expr::Lit(w) => if lit_at(input, pos, w) {
            Step::Match(pos + w.unicode_len())
        } else {
            Step::Fail
        },
        Expr::Class(k) => step_if(pos < input.len() && class_has(*k, input[pos]), pos),
        Expr::Then(a, b) => {
            let len0: usize = nodes.len();
            let ra = run(&**a, input, pos, depth, quiet, nodes, tr);
            match ra {
                Step::Match(mid) => {
                    let rb = run(&**b, input, mid, depth, quiet, nodes, tr);
                    match rb {
                        Step::Fail => {
                            nodes.truncate(len0);
                            assert(nodes@ =~= old(nodes)@);
                            Step::Fail
                        },
                        _ => rb,
                    }
                },
                _ => ra,
            }
        },
        Expr::Or(a, b) => {
            let ra = run(&**a, input, pos, depth, quiet, nodes, tr);
            match ra {
                Step::Fail => run(&**b, input, pos, depth, quiet, nodes, tr),
                _ => ra,
            }
        },
        Expr::Opt(a) => {
            let ra = run(&**a, input, pos, depth, quiet, nodes, tr);
            match ra {
                Step::Fail => Step::Match(pos),
                _ => ra,
            }
        },
        Expr::Star(a) => {
            let ghost goal = eval(*e, input@, pos, depth as nat, quiet, state_of(*old(nodes), *old(tr)));
            let mut cur: usize = pos;
            loop
                invariant
                    *e == Expr::Star(*a),
                    goal == eval(
                        *e,
                        input@,
                        pos,
                        depth as nat,
                        quiet,
                        state_of(*old(nodes), *old(tr)),
                    ),
                    pos <= cur <= input.len(),
                    eval(*e, input@, cur, depth as nat, quiet, state_of(*nodes, *tr)) == goal,
                    old(nodes)@.len() <= nodes@.len(),
                    nodes@.subrange(0, old(nodes)@.len() as int) == old(nodes)@,
                    quiet ==> tr.far == old(tr).far && tr.expected@ == old(tr).expected@,
                    tr.far <= input.len() || tr.far == old(tr).far,
                decreases input.len() - cur,
            {
                let ra = run(&**a, input, cur, depth, quiet, nodes, tr);
                match ra {
                    Step::Match(next) => {
                        if next > cur {
                            cur = next;
                        } else {
                            return Step::Match(cur);
                        }
                    },
                    Step::Fail => {
                        return Step::Match(cur);
                    },
                    Step::Abort => {
                        return Step::Abort;
                    },
                }
            }
        },
        Expr::Not(a) => {
            let len0: usize = nodes.len();
            let ra = run(&**a, input, pos, depth, true, nodes, tr);
            nodes.truncate(len0);
            assert(nodes@ =~= old(nodes)@);
            match ra {
                Step::Match(_) => Step::Fail,
                Step::Fail => Step::Match(pos),
                Step::Abort => Step::Abort,
            }
        },
        Expr::Node(r) => {
            if depth == 0 {
                return Step::Abort;
            }
            let body = rule_expr(*r);
            let mut kids: Vec<Pair> = Vec::new();
            assert(forest(kids@) =~= Seq::empty());
            let rb = run(&body, input, pos, depth - 1, quiet, &mut kids, tr);
            match rb {
                Step::Match(end) => {
                    let ghost before = forest(nodes@);
                    let ghost inside = forest(kids@);
                    let p = Pair { rule: *r, start: pos, end: end, children: kids };
                    assert(p@.children =~= inside);
                    nodes.push(p);
                    assert(forest(nodes@) =~= before.push(p@));
                    rb
                },
                Step::Fail => {
                    note_failure(tr, pos, *r, quiet, Ghost(forest(nodes@)));
                    Step::Fail
                },
                Step::Abort => Step::Abort,
            }
        },
        Expr::Inline(r) => {
            if depth == 0 {
                return Step::Abort;
            }
            let body = rule_expr(*r);
            run(&body, input, pos, depth - 1, quiet, nodes, tr)
        },
    }
}

} // verus!
