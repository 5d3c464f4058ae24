//! The grammar engine: text in, parse tree or syntax error out.

use vstd::prelude::*;
use crate::chars::to_chars;
use crate::laws::sound::{parse_tree_shaped, shaped};
use crate::peg::{eval, run, Expr, Pair, State, Step, Trace, Tree, forest};
use crate::rule::Rule;

verus! {

/// The parser of Arc text.
pub struct ArcParser;

/// How deep rules may be nested in one parse. Each rule entered counts, so a
/// value nested in a list nested in a list is a few levels per bracket.
pub const MAX_DEPTH: usize = 192;

/// A place in a text. `offset` counts characters, `byte` counts the bytes of
/// the text's UTF-8 form, `line` counts line feeds and `column` counts the
/// characters after the last line feed; all four start at zero.
#[derive(Clone, Copy, Debug, PartialEq, Eq, Structural)]
pub struct Position {
    pub offset: usize,
    pub byte: usize,
    pub line: usize,
    pub column: usize,
}

/// Why a text could not be parsed.
#[derive(Debug)]
pub enum SyntaxError {
    /// No rule matched. `at` is the furthest position at which a rule was
    /// tried and failed, `expected` the rules that failed there, in the order
    /// in which they first failed.
    Mismatch { at: Position, expected: Vec<Rule> },
    /// Rules are nested deeper than [`MAX_DEPTH`].
    TooDeep,
}

/// The number of bytes that a character takes in UTF-8.
pub open spec fn utf8_width(c: char) -> nat {
    if (c as u32) < 0x80 {
        1
    } else if (c as u32) < 0x800 {
        2
    } else if (c as u32) < 0x10000 {
        3
    } else {
        4
    }
}

/// The number of bytes that the first `n` characters of `s` take in UTF-8.
pub open spec fn utf8_len(s: Seq<char>, n: nat) -> nat
    decreases n,
{
    if n == 0 || n > s.len() {
        0
    } else {
        utf8_len(s, (n - 1) as nat) + utf8_width(s[n - 1])
    }
}

/// The number of line feeds among the first `n` characters of `s`.
pub open spec fn line_feeds(s: Seq<char>, n: nat) -> nat
    decreases n,
{
    if n == 0 || n > s.len() {
        0
    } else {
        line_feeds(s, (n - 1) as nat) + if s[n - 1] == '\n' {
            1nat
        } else {
            0nat
        }
    }
}

/// The number of characters between the last line feed before position `n`
/// and position `n`.
pub open spec fn column_of(s: Seq<char>, n: nat) -> nat
    decreases n,
{
    if n == 0 || n > s.len() || s[n - 1] == '\n' {
        0
    } else {
        column_of(s, (n - 1) as nat) + 1
    }
}

/// The place of character `pos` in `s`. The byte count stops at the largest
/// `usize`, which no text that fits in memory reaches.
pub open spec fn position_of(s: Seq<char>, pos: usize) -> Position {
    Position {
        offset: pos,
        byte: if utf8_len(s, pos as nat) <= usize::MAX {
            utf8_len(s, pos as nat) as usize
        } else {
            usize::MAX
        },
        line: line_feeds(s, pos as nat) as usize,
        column: column_of(s, pos as nat) as usize,
    }
}

/// Computes the place of character `pos`.
pub fn locate(input: &Vec<char>, pos: usize) -> (p: Position)
    requires
        pos <= input.len(),
    ensures
        p == position_of(input@, pos),
{
    let mut byte: usize = 0;
    let mut line: usize = 0;
    let mut column: usize = 0;
    let mut i: usize = 0;
    while i < pos
        invariant
            i <= pos <= input.len(),
            line == line_feeds(input@, i as nat),
            column == column_of(input@, i as nat),
            line <= i,
            column <= i,
            utf8_len(input@, i as nat) <= usize::MAX ==> byte == utf8_len(input@, i as nat),
            utf8_len(input@, i as nat) > usize::MAX ==> byte == usize::MAX,
        decreases pos - i,
    {
        let c = input[i];
        let w: usize = if (c as u32) < 0x80 {
            1
        } else if (c as u32) < 0x800 {
            2
        } else if (c as u32) < 0x10000 {
            3
        } else {
            4
        };
        byte = if byte > usize::MAX - w {
            usize::MAX
        } else {
            byte + w
        };
        if c == '\n' {
            line += 1;
            column = 0;
        } else {
            column += 1;
        }
        i += 1;
    }
    Position { offset: pos, byte, line, column }
}

/// What parsing text `s` from its start with rule `rule` gives, `depth`
/// nested rules being allowed: the outcome, and the state that holds the
/// root of the tree or the record of the furthest failure.
pub open spec fn parse_outcome(rule: Rule, s: Seq<char>, depth: nat) -> (Step, State) {
    eval(
        Expr::Node(rule),
        s,
        0,
        depth,
        false,
        State { nodes: Seq::empty(), far: 0, expected: Seq::empty() },
    )
}

/// Whether text `s` matches rule `rule` from its start.
pub open spec fn parses(rule: Rule, s: Seq<char>, depth: nat) -> bool {
    parse_outcome(rule, s, depth).0 is Match
}

/// The parse tree of text `s` under rule `rule`, where it [`parses`].
pub open spec fn parse_tree(rule: Rule, s: Seq<char>, depth: nat) -> Tree {
    parse_outcome(rule, s, depth).1.nodes[0]
}

/// Whether `e` is the error that parsing `s` with `rule` ends in.
pub open spec fn is_syntax_error(e: SyntaxError, rule: Rule, s: Seq<char>, depth: nat) -> bool {
    match e {
        SyntaxError::TooDeep => parse_outcome(rule, s, depth).0 is Abort,
        SyntaxError::Mismatch { at, expected } => {
            let (step, st) = parse_outcome(rule, s, depth);
            step is Fail && at == position_of(s, st.far) && expected@ == st.expected
        },
    }
}

impl ArcParser {
    /// Parses `input` from its start with rule `rule`.
    ///
    /// Gives the root of the parse tree where the rule matches (the root's
    /// `end` says how far), and else the reason why it does not. Every node
    /// of the tree has the shape that the builder reads.
    pub fn parse(rule: Rule, input: &str) -> (r: Result<Pair, SyntaxError>)
        ensures
            match r {
                Ok(p) => parses(rule, input@, MAX_DEPTH as nat) && p@ == parse_tree(
                    rule,
                    input@,
                    MAX_DEPTH as nat,
                ) && p.rule == rule && p.start == 0 && p.end <= input@.len() && shaped(
                    p@,
                    input@,
                ),
                Err(e) => is_syntax_error(e, rule, input@, MAX_DEPTH as nat),
            },
    {
        let chars = to_chars(input);
        Self::parse_chars(rule, &chars, MAX_DEPTH)
    }

    /// Parses the characters `input` from their start with rule `rule`,
    /// allowing `depth` nested rules.
    pub fn parse_chars(rule: Rule, input: &Vec<char>, depth: usize) -> (r: Result<
        Pair,
        SyntaxError,
    >)
        ensures
            match r {
                Ok(p) => parses(rule, input@, depth as nat) && p@ == parse_tree(
                    rule,
                    input@,
                    depth as nat,
                ) && p.rule == rule && p.start == 0 && p.end <= input.len() && shaped(p@, input@),
                Err(e) => is_syntax_error(e, rule, input@, depth as nat),
            },
    {
        proof {
            if parses(rule, input@, depth as nat) {
                parse_tree_shaped(rule, input@, depth as nat);
            }
        }
        let mut nodes: Vec<Pair> = Vec::new();
        let mut tr = Trace { far: 0, expected: Vec::new() };
        assert(forest(nodes@) =~= Seq::empty());
        let e = Expr::Node(rule);
        let step = run(&e, input, 0, depth, false, &mut nodes, &mut tr);
        match step {
            Step::Match(_) => {
                assert(forest(nodes@).len() == 1);
                let p = nodes.pop().unwrap();
                Ok(p)
            },
            Step::Fail => {
                let at = locate(input, tr.far);
                Err(SyntaxError::Mismatch { at, expected: tr.expected })
            },
            Step::Abort => Err(SyntaxError::TooDeep),
        }
    }
}

} // verus!
