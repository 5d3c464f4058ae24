//! The canonical text of values, key paths and key nodes.

use vstd::prelude::*;
use crate::chars::to_text;
use crate::number::{int_text, number_text, push_int, push_number};
use crate::value::{Dict, KeyNode, KeyPath, PathStep, Val, Value};

verus! {

/// How one character of a string is written between quotes: the quote, the
/// backslash, the line feed, the carriage return and the tab are written as
/// a backslash and a second character, every other character as itself.
pub open spec fn escape_char(c: char) -> Seq<char> {
    if c == '"' {
        seq!['\\', '"']
    } else if c == '\\' {
        seq!['\\', '\\']
    } else if c == '\n' {
        seq!['\\', 'n']
    } else if c == '\r' {
        seq!['\\', 'r']
    } else if c == '\t' {
        seq!['\\', 't']
    } else {
        seq![c]
    }
}

/// The characters of `s`, each written as [`escape_char`] says.
pub open spec fn escape(s: Seq<char>) -> Seq<char>
    decreases s.len(),
{
    if s.len() == 0 {
        Seq::empty()
    } else {
        escape(s.drop_last()) + escape_char(s.last())
    }
}

/// The string `s` as a literal: escaped, between double quotes.
pub open spec fn quoted(s: Seq<char>) -> Seq<char> {
    seq!['"'] + escape(s) + seq!['"']
}

/// The text of one step of a path: a key as it is, an index in decimal.
pub open spec fn step_text(k: PathStep) -> Seq<char> {
    match k {
        PathStep::Key(s) => s,
        PathStep::Index(i) => int_text(i as int),
    }
}

/// The text of the first `n` steps of `p`, with a dot between neighbours.
pub open spec fn path_text(p: Seq<PathStep>, n: nat) -> Seq<char>
    decreases n,
{
    if n == 0 || n > p.len() {
        Seq::empty()
    } else if n == 1 {
        step_text(p[0])
    } else {
        path_text(p, (n - 1) as nat) + seq!['.'] + step_text(p[n - 1])
    }
}

/// The canonical text of a value.
///
/// A list is `[`, its elements with `, ` between neighbours, `]`. A
/// dictionary without entries is `{}`; with one entry it is `{key:value}`;
/// with more it is `{`, then one line `    key: value,` per entry, then `}`.
/// The kinds that have no text of their own are written as their names.
pub open spec fn text_of(v: Val) -> Seq<char>
    decreases v, 0nat,
{
    match v {
        Val::Null => "null"@,
        Val::Boolean(b) => if b {
            "true"@
        } else {
            "false"@
        },
        Val::Number(n) => number_text(n),
        Val::String(s) => quoted(s),
        Val::Cite(p) => seq!['$'] + path_text(p, p.len()),
        Val::List(items) => seq!['['] + items_text(items, items.len()) + seq![']'],
        Val::Dict(entries) => if entries.len() == 0 {
            "{}"@
        } else if entries.len() == 1 {
            seq!['{'] + entries[0].0 + seq![':'] + text_of(entries[0].1) + seq!['}']
        } else {
            "{\n"@ + lines_text(entries, entries.len()) + seq!['}']
        },
        Val::Char(_) => "Char"@,
        Val::EmptyLine => "EmptyLine"@,
        Val::FreeDict(_) => "FreeDict"@,
        Val::Record(_, _) => "Record"@,
        Val::Key(_, _) => "Key"@,
        Val::HandlerString(_, _) => "HandlerString"@,
        Val::HandlerNumber(_, _) => "HandlerNumber"@,
        Val::Comment(_, _) => "Comment"@,
    }
}

/// The texts of the first `n` of `items`, with `, ` between neighbours.
pub open spec fn items_text(items: Seq<Val>, n: nat) -> Seq<char>
    decreases items, n,
{
    if n == 0 || n > items.len() {
        Seq::empty()
    } else if n == 1 {
        text_of(items[0])
    } else {
        items_text(items, (n - 1) as nat) + ", "@ + text_of(items[n - 1])
    }
}

/// One line per entry for the first `n` of `entries`: four spaces, the key,
/// `: `, the value, a comma and a line feed.
pub open spec fn lines_text(entries: Seq<(Seq<char>, Val)>, n: nat) -> Seq<char>
    decreases entries, n,
{
    if n == 0 || n > entries.len() {
        Seq::empty()
    } else {
        lines_text(entries, (n - 1) as nat) + "    "@ + entries[n - 1].0 + ": "@ + text_of(
            entries[n - 1].1,
        ) + ",\n"@
    }
}

/// Appends the characters of `s`.
pub fn push_str(out: &mut Vec<char>, s: &str)
    ensures
        final(out)@ == old(out)@ + s@,
{
    for c in it: s.chars()
        invariant
            it.seq() == s@,
            out@ == old(out)@ + s@.take(it.index() as int),
    {
        out.push(c);
        assert(out@ =~= old(out)@ + s@.take(it.index() + 1));
    }
    assert(s@.take(s@.len() as int) =~= s@);
}

/// Appends `s` as a literal: escaped, between double quotes.
pub fn push_quoted(out: &mut Vec<char>, s: &str)
    ensures
        final(out)@ == old(out)@ + quoted(s@),
{
    out.push('"');
    let ghost base = out@;
    for c in it: s.chars()
        invariant
            it.seq() == s@,
            out@ == base + escape(s@.take(it.index() as int)),
    {
        let ghost before = s@.take(it.index() as int);
        let ghost after = s@.take(it.index() + 1);
        assert(after.drop_last() =~= before);
        assert(after.last() == c);
        if c == '"' {
            out.push('\\');
            out.push('"');
        } else if c == '\\' {
            out.push('\\');
            out.push('\\');
        } else if c == '\n' {
            out.push('\\');
            out.push('n');
        } else if c == '\r' {
            out.push('\\');
            out.push('r');
        } else if c == '\t' {
            out.push('\\');
            out.push('t');
        } else {
            out.push(c);
        }
        assert(out@ =~= base + escape(after));
    }
    assert(s@.take(s@.len() as int) =~= s@);
    out.push('"');
    assert(out@ =~= old(out)@ + quoted(s@));
}

/// Appends the text of one step of a path.
pub fn push_step(out: &mut Vec<char>, k: &KeyNode)
    ensures
        final(out)@ == old(out)@ + step_text(k@),
{
    match k {
        KeyNode::Key(s) => push_str(out, s.as_str()),
        KeyNode::Index(i) => push_int(out, *i as i64),
    }
}

/// Appends the text of a path.
pub fn push_path(out: &mut Vec<char>, p: &KeyPath)
    ensures
        final(out)@ == old(out)@ + path_text(p@, p@.len()),
{
    let n: usize = p.0.len();
    let mut i: usize = 0;
    while i < n
        invariant
            i <= n == p.0.len(),
            p@.len() == n,
            out@ == old(out)@ + path_text(p@, i as nat),
        decreases n - i,
    {
        if i > 0 {
            out.push('.');
        }
        push_step(out, &p.0[i]);
        i += 1;
        assert(out@ =~= old(out)@ + path_text(p@, i as nat));
    }
}

/// Appends the canonical text of a value.
pub fn push_value(out: &mut Vec<char>, v: &Value)
    ensures
        final(out)@ == old(out)@ + text_of(v@),
    decreases v,
{
    match v {
        Value::Null => push_str(out, "null"),
        Value::Boolean(b) => if *b {
            push_str(out, "true")
        } else {
            push_str(out, "false")
        },
        Value::Number(n) => push_number(out, n),
        Value::String(s) => push_quoted(out, s.as_str()),
        Value::Cite(p) => {
            out.push('$');
            push_path(out, p);
            assert(out@ =~= old(out)@ + text_of(v@));
        },
        Value::List(items) => {
            out.push('[');
            let ghost base = out@;
            let n: usize = items.len();
            let mut i: usize = 0;
            while i < n
                invariant
                    i <= n == items.len(),
                    *v == Value::List(*items),
                    v@ is List,
                    v@->List_0.len() == n,
                    forall|j: int| 0 <= j < n ==> v@->List_0[j] == (#[trigger] items@[j])@,
                    out@ == base + items_text(v@->List_0, i as nat),
                decreases n - i,
            {
                if i > 0 {
                    push_str(out, ", ");
                }
                push_value(out, &items[i]);
                i += 1;
                assert(out@ =~= base + items_text(v@->List_0, i as nat));
            }
            out.push(']');
            assert(out@ =~= old(out)@ + text_of(v@));
        },
        Value::Dict(d) => {
            let n: usize = d.len();
            if n == 0 {
                push_str(out, "{}");
            } else if n == 1 {
                out.push('{');
                push_str(out, d.key_at(0).as_str());
                out.push(':');
                push_value(out, d.value_at(0));
                out.push('}');
                assert(out@ =~= old(out)@ + text_of(v@));
            } else {
                push_str(out, "{\n");
                let ghost base = out@;
                let mut i: usize = 0;
                while i < n
                    invariant
                        i <= n == d@.len(),
                        *v == Value::Dict(*d),
                        v@ == Val::Dict(d@),
                        out@ == base + lines_text(d@, i as nat),
                    decreases n - i,
                {
                    push_str(out, "    ");
                    push_str(out, d.key_at(i).as_str());
                    push_str(out, ": ");
                    push_value(out, d.value_at(i));
                    push_str(out, ",\n");
                    i += 1;
                    assert(out@ =~= base + lines_text(d@, i as nat));
                }
                out.push('}');
                assert(out@ =~= old(out)@ + text_of(v@));
            }
        },
        Value::Char(_) => push_str(out, "Char"),
        Value::EmptyLine => push_str(out, "EmptyLine"),
        Value::FreeDict(_) => push_str(out, "FreeDict"),
        Value::Record(_, _) => push_str(out, "Record"),
        Value::Key(_, _) => push_str(out, "Key"),
        Value::HandlerString(_, _) => push_str(out, "HandlerString"),
        Value::HandlerNumber(_, _) => push_str(out, "HandlerNumber"),
        Value::Comment(_, _) => push_str(out, "Comment"),
    }
}

impl KeyNode {
    /// The text of the node: a key as it is, an index in decimal.
    pub fn to_text(&self) -> (s: String)
        ensures
            s@ == step_text(self@),
    {
        let mut out: Vec<char> = Vec::new();
        push_step(&mut out, self);
        let s = to_text(&out, 0, out.len());
        assert(out@.subrange(0, out@.len() as int) =~= out@);
        s
    }
}

impl KeyPath {
    /// The text of the path: its nodes with a dot between neighbours.
    pub fn to_text(&self) -> (s: String)
        ensures
            s@ == path_text(self@, self@.len()),
    {
        let mut out: Vec<char> = Vec::new();
        push_path(&mut out, self);
        let s = to_text(&out, 0, out.len());
        assert(out@.subrange(0, out@.len() as int) =~= out@);
        s
    }
}

impl Value {
    /// The canonical text of the value.
    pub fn to_text(&self) -> (s: String)
        ensures
            s@ == text_of(self@),
    {
        let mut out: Vec<char> = Vec::new();
        push_value(&mut out, self);
        let s = to_text(&out, 0, out.len());
        assert(out@.subrange(0, out@.len() as int) =~= out@);
        s
    }
}

} // verus!
