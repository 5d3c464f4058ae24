//! From parse trees to documents.

use vstd::prelude::*;
use crate::chars::to_chars;
use crate::document::{edit_at, set_at, Change, Edit};
use crate::laws::sound::{
    data_fine, document_fine, fine, literal_errors_are_overflows, shaped,
};
use crate::parser::{
    is_syntax_error, locate, parse_tree, parses, position_of, ArcParser, SyntaxError, MAX_DEPTH,
};
use crate::peg::{Pair, Tree};
use crate::rule::Rule;
use crate::scalar::{
    agrees, arity, byte_value, child, cite_value, fault, import_value, inline_value, number_value,
    path_of, read_byte, read_cite, read_import, read_inline, read_number, read_path, read_special,
    read_string, special_value, string_value, Fault, LiteralError,
};
use crate::value::{vals_of, Dict, KeyNode, KeyPath, PathStep, Val, Value};

verus! {

/// The value of a `data` node: that of the one node inside it.
pub open spec fn data_value(t: Tree, s: Seq<char>) -> Result<Val, LiteralError>
    decreases t, 0nat,
{
    if t.children.len() != 1 {
        Err(fault(Fault::Malformed, t))
    } else {
        let c = t.children[0];
        match c.rule {
            Rule::Byte => byte_value(c, s),
            Rule::Number => number_value(c, s),
            Rule::Special => special_value(c, s),
            Rule::String => string_value(c, s),
            Rule::cite_value => cite_value(c, s),
            Rule::dict_literal => dict_value(c, s),
            Rule::list_literal => list_value(c, s),
            Rule::import_statement => import_value(c, s),
            Rule::InlineString => inline_value(c, s),
            _ => Err(fault(Fault::Malformed, t)),
        }
    }
}

/// The values of the children `from..n` of `t`, each of which is a `data`
/// node; the first failure in that order otherwise.
pub open spec fn values_in(t: Tree, s: Seq<char>, from: nat, n: nat) -> Result<
    Seq<Val>,
    LiteralError,
>
    decreases t, 1nat, n,
{
    if n <= from || n > t.children.len() {
        Ok(Seq::empty())
    } else {
        match values_in(t, s, from, (n - 1) as nat) {
            Err(e) => Err(e),
            Ok(vs) => if t.children[n - 1].rule != Rule::data {
                Err(fault(Fault::Malformed, t.children[n - 1]))
            } else {
                match data_value(t.children[n - 1], s) {
                    Err(e) => Err(e),
                    Ok(v) => Ok(vs.push(v)),
                }
            },
        }
    }
}

/// The value of a `list_literal` node: the list of its values.
pub open spec fn list_value(t: Tree, s: Seq<char>) -> Result<Val, LiteralError>
    decreases t, 2nat,
{
    match values_in(t, s, 0, t.children.len()) {
        Err(e) => Err(e),
        Ok(vs) => Ok(Val::List(vs)),
    }
}

/// The path and the value of a `dict_pair` node.
pub open spec fn pair_parts(t: Tree, s: Seq<char>) -> Result<(Seq<PathStep>, Val), LiteralError>
    decreases t, 0nat,
{
    if t.children.len() != 2 || t.children[0].rule != Rule::namespace || t.children[1].rule
        != Rule::data {
        Err(fault(Fault::Malformed, t))
    } else {
        match path_of(t.children[0], s) {
            Err(e) => Err(e),
            Ok(path) => match data_value(t.children[1], s) {
                Err(e) => Err(e),
                Ok(v) => Ok((path, v)),
            },
        }
    }
}

/// The entries `start` after the children `from..n` of `t`, each of which is
/// a `dict_pair` node, have put their values at their paths behind `prefix`,
/// one after the other; the first failure in that order otherwise.
pub open spec fn pairs_into(
    t: Tree,
    s: Seq<char>,
    from: nat,
    n: nat,
    prefix: Seq<PathStep>,
    start: Seq<(Seq<char>, Val)>,
) -> Result<Seq<(Seq<char>, Val)>, LiteralError>
    decreases t, 1nat, n,
{
    if n <= from || n > t.children.len() {
        Ok(start)
    } else {
        match pairs_into(t, s, from, (n - 1) as nat, prefix, start) {
            Err(e) => Err(e),
            Ok(entries) => if t.children[n - 1].rule != Rule::dict_pair {
                Err(fault(Fault::Malformed, t.children[n - 1]))
            } else {
                match pair_parts(t.children[n - 1], s) {
                    Err(e) => Err(e),
                    Ok((path, v)) => Ok(set_at(entries, prefix + path, 0, Change::Put(v))),
                }
            },
        }
    }
}

/// The value of a `dict_literal` node: the dictionary that its pairs fill.
pub open spec fn dict_value(t: Tree, s: Seq<char>) -> Result<Val, LiteralError>
    decreases t, 2nat,
{
    match pairs_into(t, s, 0, t.children.len(), Seq::empty(), Seq::empty()) {
        Err(e) => Err(e),
        Ok(entries) => Ok(Val::Dict(entries)),
    }
}

/// A failure among the children `from..n` is the failure of every longer
/// range.
proof fn values_failure(t: Tree, s: Seq<char>, from: nat, n: nat, m: nat)
    requires
        n <= m <= t.children.len(),
        values_in(t, s, from, n) is Err,
    ensures
        values_in(t, s, from, m) == values_in(t, s, from, n),
    decreases m,
{
    if n < m {
        values_failure(t, s, from, n, (m - 1) as nat);
    }
}

/// A failure among the children `from..n` is the failure of every longer
/// range.
proof fn pairs_failure(
    t: Tree,
    s: Seq<char>,
    from: nat,
    n: nat,
    m: nat,
    prefix: Seq<PathStep>,
    start: Seq<(Seq<char>, Val)>,
)
    requires
        n <= m <= t.children.len(),
        pairs_into(t, s, from, n, prefix, start) is Err,
    ensures
        pairs_into(t, s, from, m, prefix, start) == pairs_into(t, s, from, n, prefix, start),
    decreases m,
{
    if n < m {
        pairs_failure(t, s, from, n, (m - 1) as nat, prefix, start);
    }
}

/// Builds the value of a `data` node. A node in the shape that the parser
/// gives it is never malformed.
pub fn build_data(p: &Pair, input: &Vec<char>) -> (r: Result<Value, LiteralError>)
    ensures
        agrees(r, data_value(p@, input@)),
        shaped(p@, input@) && p@.rule == Rule::data ==> (r matches Err(e) ==> e.kind
            == Fault::Overflow),
    decreases p, 0nat,
{
    proof {
        if shaped(p@, input@) && p@.rule == Rule::data {
            data_fine(p@, input@);
        }
    }
    if arity(p) != 1 {
        return Err(LiteralError { kind: Fault::Malformed, start: p.start, end: p.end });
    }
    let c = child(p, 0);
    match c.rule {
        Rule::Byte => read_byte(c, input),
        Rule::Number => read_number(c, input),
        Rule::Special => read_special(c, input),
        Rule::String => read_string(c, input),
        Rule::cite_value => read_cite(c, input),
        Rule::dict_literal => build_dict(c, input),
        Rule::list_literal => build_list(c, input),
        Rule::import_statement => read_import(c, input),
        Rule::InlineString => read_inline(c, input),
        _ => Err(LiteralError { kind: Fault::Malformed, start: p.start, end: p.end }),
    }
}

/// Builds the values of the children of `p` from `from` on.
pub fn build_values(p: &Pair, input: &Vec<char>, from: usize) -> (r: Result<
    Vec<Value>,
    LiteralError,
>)
    ensures
        match r {
            Ok(vs) => values_in(p@, input@, from as nat, p@.children.len()) == Ok::<
                Seq<Val>,
                LiteralError,
            >(vals_of(vs@)),
            Err(e) => values_in(p@, input@, from as nat, p@.children.len()) == Err::<
                Seq<Val>,
                LiteralError,
            >(e),
        },
    decreases p, 1nat,
{
    let n: usize = arity(p);
    let mut out: Vec<Value> = Vec::new();
    assert(vals_of(out@) =~= Seq::<Val>::empty());
    if from >= n {
        return Ok(out);
    }
    let mut i: usize = from;
    while i < n
        invariant
            from <= i <= n == p@.children.len(),
            values_in(p@, input@, from as nat, i as nat) == Ok::<Seq<Val>, LiteralError>(
                vals_of(out@),
            ),
        decreases n - i,
    {
        let c = child(p, i);
        if c.rule != Rule::data {
            proof {
                values_failure(p@, input@, from as nat, (i + 1) as nat, n as nat);
            }
            return Err(LiteralError { kind: Fault::Malformed, start: c.start, end: c.end });
        }
        match build_data(c, input) {
            Err(e) => {
                proof {
                    values_failure(p@, input@, from as nat, (i + 1) as nat, n as nat);
                }
                return Err(e);
            },
            Ok(v) => {
                let ghost before = vals_of(out@);
                out.push(v);
                assert(vals_of(out@) =~= before.push(v@));
            },
        }
        i += 1;
    }
    Ok(out)
}

/// Builds the value of a `list_literal` node.
pub fn build_list(p: &Pair, input: &Vec<char>) -> (r: Result<Value, LiteralError>)
    ensures
        agrees(r, list_value(p@, input@)),
    decreases p, 2nat,
{
    match build_values(p, input, 0) {
        Err(e) => Err(e),
        Ok(vs) => {
            let v = Value::List(vs);
            assert(v@->List_0 =~= vals_of(vs@));
            Ok(v)
        },
    }
}

/// Builds the path and the value of a `dict_pair` node.
pub fn build_pair(p: &Pair, input: &Vec<char>) -> (r: Result<(Vec<KeyNode>, Value), LiteralError>)
    ensures
        match r {
            Ok((path, v)) => pair_parts(p@, input@) == Ok::<(Seq<PathStep>, Val), LiteralError>(
                (KeyPath(path)@, v@),
            ),
            Err(e) => pair_parts(p@, input@) == Err::<(Seq<PathStep>, Val), LiteralError>(e),
        },
    decreases p, 0nat,
{
    if arity(p) != 2 || child(p, 0).rule != Rule::namespace || child(p, 1).rule != Rule::data {
        return Err(LiteralError { kind: Fault::Malformed, start: p.start, end: p.end });
    }
    match read_path(child(p, 0), input) {
        Err(e) => Err(e),
        Ok(path) => match build_data(child(p, 1), input) {
            Err(e) => Err(e),
            Ok(v) => Ok((path, v)),
        },
    }
}

/// A copy of a key node.
pub fn copy_node(k: &KeyNode) -> (c: KeyNode)
    ensures
        c@ == k@,
{
    match k {
        KeyNode::Key(s) => KeyNode::Key(s.clone()),
        KeyNode::Index(i) => KeyNode::Index(*i),
    }
}

/// The path `prefix` followed by the path `rest`.
pub fn join_paths(prefix: &Vec<KeyNode>, rest: Vec<KeyNode>) -> (path: Vec<KeyNode>)
    ensures
        KeyPath(path)@ == KeyPath(*prefix)@ + KeyPath(rest)@,
{
    let mut path: Vec<KeyNode> = Vec::new();
    let mut i: usize = 0;
    while i < prefix.len()
        invariant
            i <= prefix.len(),
            KeyPath(path)@ == KeyPath(*prefix)@.take(i as int),
        decreases prefix.len() - i,
    {
        let ghost before = KeyPath(path)@;
        let k = copy_node(&prefix[i]);
        path.push(k);
        i += 1;
        assert(KeyPath(path)@ =~= before.push(k@));
        assert(before.push(k@) =~= KeyPath(*prefix)@.take(i as int));
    }
    let ghost a = KeyPath(path)@;
    let ghost b = KeyPath(rest)@;
    let mut rest = rest;
    path.append(&mut rest);
    assert(KeyPath(path)@ =~= a + b);
    assert(KeyPath(*prefix)@.take(prefix.len() as int) =~= KeyPath(*prefix)@);
    path
}

/// Puts the pairs that are the children of `p` from `from` on into `d`, each
/// at its path behind `prefix`.
pub fn put_pairs(p: &Pair, input: &Vec<char>, from: usize, prefix: &Vec<KeyNode>, d: &mut Dict) -> (r:
    Result<(), LiteralError>)
    ensures
        match r {
            Ok(_) => pairs_into(
                p@,
                input@,
                from as nat,
                p@.children.len(),
                KeyPath(*prefix)@,
                old(d)@,
            ) == Ok::<Seq<(Seq<char>, Val)>, LiteralError>(final(d)@),
            Err(e) => pairs_into(
                p@,
                input@,
                from as nat,
                p@.children.len(),
                KeyPath(*prefix)@,
                old(d)@,
            ) == Err::<Seq<(Seq<char>, Val)>, LiteralError>(e),
        },
    decreases p, 1nat,
{
    let n: usize = arity(p);
    if from >= n {
        return Ok(());
    }
    let mut i: usize = from;
    while i < n
        invariant
            from <= i <= n == p@.children.len(),
            pairs_into(p@, input@, from as nat, i as nat, KeyPath(*prefix)@, old(d)@) == Ok::<
                Seq<(Seq<char>, Val)>,
                LiteralError,
            >(d@),
        decreases n - i,
    {
        let c = child(p, i);
        if c.rule != Rule::dict_pair {
            proof {
                pairs_failure(
                    p@,
                    input@,
                    from as nat,
                    (i + 1) as nat,
                    n as nat,
                    KeyPath(*prefix)@,
                    old(d)@,
                );
            }
            return Err(LiteralError { kind: Fault::Malformed, start: c.start, end: c.end });
        }
        match build_pair(c, input) {
            Err(e) => {
                proof {
                    pairs_failure(
                        p@,
                        input@,
                        from as nat,
                        (i + 1) as nat,
                        n as nat,
                        KeyPath(*prefix)@,
                        old(d)@,
                    );
                }
                return Err(e);
            },
            Ok((path, v)) => {
                let full = join_paths(prefix, path);
                edit_at(d, &full, 0, Edit::Put(v));
            },
        }
        i += 1;
    }
    Ok(())
}

/// Builds the value of a `dict_literal` node.
pub fn build_dict(p: &Pair, input: &Vec<char>) -> (r: Result<Value, LiteralError>)
    ensures
        agrees(r, dict_value(p@, input@)),
    decreases p, 2nat,
{
    let mut d = Dict::new();
    let prefix: Vec<KeyNode> = Vec::new();
    assert(KeyPath(prefix)@ =~= Seq::<PathStep>::empty());
    match put_pairs(p, input, 0, &prefix, &mut d) {
        Err(e) => Err(e),
        Ok(_) => Ok(Value::Dict(d)),
    }
}

/// The path that a `dict_head` or `list_head` node names: that of its last
/// child. The dots that may stand before it carry no meaning.
pub open spec fn head_path(t: Tree, s: Seq<char>) -> Result<Seq<PathStep>, LiteralError> {
    if t.children.len() == 0 || t.children[t.children.len() - 1].rule != Rule::namespace {
        Err(fault(Fault::Malformed, t))
    } else {
        path_of(t.children[t.children.len() - 1], s)
    }
}

/// The values that a `list_pair` node adds to its list: behind `*` one
/// dictionary that the pairs fill, behind `&` the values one by one.
pub open spec fn list_pair_items(t: Tree, s: Seq<char>) -> Result<Seq<Val>, LiteralError> {
    if t.children.len() == 0 {
        Err(fault(Fault::Malformed, t))
    } else {
        match t.children[0].rule {
            Rule::Insert => match pairs_into(
                t,
                s,
                1,
                t.children.len(),
                Seq::empty(),
                Seq::empty(),
            ) {
                Err(e) => Err(e),
                Ok(entries) => Ok(seq![Val::Dict(entries)]),
            },
            Rule::Append => values_in(t, s, 1, t.children.len()),
            _ => Err(fault(Fault::Malformed, t)),
        }
    }
}

/// The values that the children `1..n` of a `list_scope` node, each of which
/// is a `list_pair` node, add to the list; the first failure otherwise.
pub open spec fn scope_items(t: Tree, s: Seq<char>, n: nat) -> Result<Seq<Val>, LiteralError>
    decreases n,
{
    if n <= 1 || n > t.children.len() {
        Ok(Seq::empty())
    } else {
        match scope_items(t, s, (n - 1) as nat) {
            Err(e) => Err(e),
            Ok(items) => if t.children[n - 1].rule != Rule::list_pair {
                Err(fault(Fault::Malformed, t.children[n - 1]))
            } else {
                match list_pair_items(t.children[n - 1], s) {
                    Err(e) => Err(e),
                    Ok(more) => Ok(items + more),
                }
            },
        }
    }
}

/// The entries of the document after one statement.
///
/// A pair puts its value at its path. The pairs of a dictionary literal do
/// the same, one after the other. A dictionary scope makes sure that its
/// header's path holds a dictionary and puts its pairs there. A list scope
/// adds its values to the list at its header's path. Blank lines and the end
/// of the text change nothing.
pub open spec fn statement_into(c: Tree, s: Seq<char>, root: Seq<(Seq<char>, Val)>) -> Result<
    Seq<(Seq<char>, Val)>,
    LiteralError,
> {
    match c.rule {
        Rule::dict_pair => match pair_parts(c, s) {
            Err(e) => Err(e),
            Ok((path, v)) => Ok(set_at(root, path, 0, Change::Put(v))),
        },
        Rule::dict_literal => pairs_into(c, s, 0, c.children.len(), Seq::empty(), root),
        Rule::dict_scope => if c.children.len() == 0 || c.children[0].rule != Rule::dict_head {
            Err(fault(Fault::Malformed, c))
        } else {
            match head_path(c.children[0], s) {
                Err(e) => Err(e),
                Ok(path) => pairs_into(
                    c,
                    s,
                    1,
                    c.children.len(),
                    path,
                    set_at(root, path, 0, Change::Touch),
                ),
            }
        },
        Rule::list_scope => if c.children.len() == 0 || c.children[0].rule != Rule::list_head {
            Err(fault(Fault::Malformed, c))
        } else {
            match head_path(c.children[0], s) {
                Err(e) => Err(e),
                Ok(path) => match scope_items(c, s, c.children.len()) {
                    Err(e) => Err(e),
                    Ok(items) => Ok(set_at(root, path, 0, Change::Append(items))),
                },
            }
        },
        Rule::EmptyLine | Rule::EOI => Ok(root),
        _ => Err(fault(Fault::Malformed, c)),
    }
}

/// The entries of the document after the first `n` statements of a `program`
/// node; the first failure otherwise.
pub open spec fn statements_into(t: Tree, s: Seq<char>, n: nat) -> Result<
    Seq<(Seq<char>, Val)>,
    LiteralError,
>
    decreases n,
{
    if n == 0 || n > t.children.len() {
        Ok(Seq::empty())
    } else {
        match statements_into(t, s, (n - 1) as nat) {
            Err(e) => Err(e),
            Ok(root) => statement_into(t.children[n - 1], s, root),
        }
    }
}

/// Whether the document starts with pairs that stand under no header.
pub open spec fn is_free(t: Tree) -> bool {
    t.children.len() > 0 && (t.children[0].rule == Rule::dict_pair || t.children[0].rule
        == Rule::dict_literal)
}

/// The document of a `program` node: a dictionary that the statements fill,
/// one after the other. It is a `FreeDict` where the text starts with pairs
/// under no header, and a `Dict` otherwise.
pub open spec fn document(t: Tree, s: Seq<char>) -> Result<Val, LiteralError> {
    match statements_into(t, s, t.children.len()) {
        Err(e) => Err(e),
        Ok(entries) => if is_free(t) {
            Ok(Val::FreeDict(entries))
        } else {
            Ok(Val::Dict(entries))
        },
    }
}

/// A failure among the entries `1..n` of a list scope is the failure of every
/// longer range.
proof fn scope_failure(t: Tree, s: Seq<char>, n: nat, m: nat)
    requires
        n <= m <= t.children.len(),
        scope_items(t, s, n) is Err,
    ensures
        scope_items(t, s, m) == scope_items(t, s, n),
    decreases m,
{
    if n < m {
        scope_failure(t, s, n, (m - 1) as nat);
    }
}

/// A failure among the first `n` statements is the failure of every longer
/// prefix.
proof fn statements_failure(t: Tree, s: Seq<char>, n: nat, m: nat)
    requires
        n <= m <= t.children.len(),
        statements_into(t, s, n) is Err,
    ensures
        statements_into(t, s, m) == statements_into(t, s, n),
    decreases m,
{
    if n < m {
        statements_failure(t, s, n, (m - 1) as nat);
    }
}

/// Reads the path of a `dict_head` or `list_head` node.
pub fn read_head(p: &Pair, input: &Vec<char>) -> (r: Result<Vec<KeyNode>, LiteralError>)
    ensures
        match r {
            Ok(path) => head_path(p@, input@) == Ok::<Seq<PathStep>, LiteralError>(KeyPath(path)@),
            Err(e) => head_path(p@, input@) == Err::<Seq<PathStep>, LiteralError>(e),
        },
{
    let n: usize = arity(p);
    if n == 0 || child(p, n - 1).rule != Rule::namespace {
        return Err(LiteralError { kind: Fault::Malformed, start: p.start, end: p.end });
    }
    read_path(child(p, n - 1), input)
}

/// Builds the values that a `list_pair` node adds to its list.
pub fn build_list_pair(p: &Pair, input: &Vec<char>) -> (r: Result<Vec<Value>, LiteralError>)
    ensures
        match r {
            Ok(vs) => list_pair_items(p@, input@) == Ok::<Seq<Val>, LiteralError>(vals_of(vs@)),
            Err(e) => list_pair_items(p@, input@) == Err::<Seq<Val>, LiteralError>(e),
        },
{
    if arity(p) == 0 {
        return Err(LiteralError { kind: Fault::Malformed, start: p.start, end: p.end });
    }
    match child(p, 0).rule {
        Rule::Insert => {
            let mut d = Dict::new();
            let prefix: Vec<KeyNode> = Vec::new();
            assert(KeyPath(prefix)@ =~= Seq::<PathStep>::empty());
            match put_pairs(p, input, 1, &prefix, &mut d) {
                Err(e) => Err(e),
                Ok(_) => {
                    let mut vs: Vec<Value> = Vec::new();
                    let v = Value::Dict(d);
                    vs.push(v);
                    assert(vals_of(vs@) =~= seq![v@]);
                    Ok(vs)
                },
            }
        },
        Rule::Append => build_values(p, input, 1),
        _ => Err(LiteralError { kind: Fault::Malformed, start: p.start, end: p.end }),
    }
}

/// Builds the values that a `list_scope` node adds to its list.
pub fn build_scope_items(p: &Pair, input: &Vec<char>) -> (r: Result<Vec<Value>, LiteralError>)
    ensures
        match r {
            Ok(vs) => scope_items(p@, input@, p@.children.len()) == Ok::<Seq<Val>, LiteralError>(
                vals_of(vs@),
            ),
            Err(e) => scope_items(p@, input@, p@.children.len()) == Err::<Seq<Val>, LiteralError>(
                e,
            ),
        },
{
    let n: usize = arity(p);
    let mut out: Vec<Value> = Vec::new();
    assert(vals_of(out@) =~= Seq::<Val>::empty());
    if n <= 1 {
        return Ok(out);
    }
    let mut i: usize = 1;
    while i < n
        invariant
            1 <= i <= n == p@.children.len(),
            scope_items(p@, input@, i as nat) == Ok::<Seq<Val>, LiteralError>(vals_of(out@)),
        decreases n - i,
    {
        let c = child(p, i);
        if c.rule != Rule::list_pair {
            proof {
                scope_failure(p@, input@, (i + 1) as nat, n as nat);
            }
            return Err(LiteralError { kind: Fault::Malformed, start: c.start, end: c.end });
        }
        match build_list_pair(c, input) {
            Err(e) => {
                proof {
                    scope_failure(p@, input@, (i + 1) as nat, n as nat);
                }
                return Err(e);
            },
            Ok(mut more) => {
                let ghost a = vals_of(out@);
                let ghost b = vals_of(more@);
                out.append(&mut more);
                assert(vals_of(out@) =~= a + b);
            },
        }
        i += 1;
    }
    Ok(out)
}

/// Makes the change of one statement in the document `d`.
pub fn build_statement(c: &Pair, input: &Vec<char>, d: &mut Dict) -> (r: Result<(), LiteralError>)
    ensures
        match r {
            Ok(_) => statement_into(c@, input@, old(d)@) == Ok::<
                Seq<(Seq<char>, Val)>,
                LiteralError,
            >(final(d)@),
            Err(e) => statement_into(c@, input@, old(d)@) == Err::<
                Seq<(Seq<char>, Val)>,
                LiteralError,
            >(e),
        },
{
    match c.rule {
        Rule::dict_pair => match build_pair(c, input) {
            Err(e) => Err(e),
            Ok((path, v)) => {
                edit_at(d, &path, 0, Edit::Put(v));
                Ok(())
            },
        },
        Rule::dict_literal => {
            let prefix: Vec<KeyNode> = Vec::new();
            assert(KeyPath(prefix)@ =~= Seq::<PathStep>::empty());
            put_pairs(c, input, 0, &prefix, d)
        },
        Rule::dict_scope => {
            if arity(c) == 0 || child(c, 0).rule != Rule::dict_head {
                return Err(LiteralError { kind: Fault::Malformed, start: c.start, end: c.end });
            }
            match read_head(child(c, 0), input) {
                Err(e) => Err(e),
                Ok(path) => {
                    edit_at(d, &path, 0, Edit::Touch);
                    put_pairs(c, input, 1, &path, d)
                },
            }
        },
        Rule::list_scope => {
            if arity(c) == 0 || child(c, 0).rule != Rule::list_head {
                return Err(LiteralError { kind: Fault::Malformed, start: c.start, end: c.end });
            }
            match read_head(child(c, 0), input) {
                Err(e) => Err(e),
                Ok(path) => match build_scope_items(c, input) {
                    Err(e) => Err(e),
                    Ok(items) => {
                        edit_at(d, &path, 0, Edit::Append(items));
                        Ok(())
                    },
                },
            }
        },
        Rule::EmptyLine | Rule::EOI => Ok(()),
        _ => Err(LiteralError { kind: Fault::Malformed, start: c.start, end: c.end }),
    }
}

/// Builds the document of a `program` node. A node in the shape that the
/// parser gives it is never malformed.
pub fn build_document(p: &Pair, input: &Vec<char>) -> (r: Result<Value, LiteralError>)
    ensures
        agrees(r, document(p@, input@)),
        shaped(p@, input@) && p@.rule == Rule::program ==> (r matches Err(e) ==> e.kind
            == Fault::Overflow),
{
    proof {
        if shaped(p@, input@) && p@.rule == Rule::program {
            document_fine(p@, input@);
        }
    }
    let n: usize = arity(p);
    let mut d = Dict::new();
    let mut i: usize = 0;
    while i < n
        invariant
            i <= n == p@.children.len(),
            shaped(p@, input@) && p@.rule == Rule::program ==> fine(document(p@, input@)),
            statements_into(p@, input@, i as nat) == Ok::<Seq<(Seq<char>, Val)>, LiteralError>(
                d@,
            ),
        decreases n - i,
    {
        match build_statement(child(p, i), input, &mut d) {
            Err(e) => {
                proof {
                    statements_failure(p@, input@, (i + 1) as nat, n as nat);
                }
                return Err(e);
            },
            Ok(_) => {},
        }
        i += 1;
    }
    let free: bool = n > 0 && (child(p, 0).rule == Rule::dict_pair || child(p, 0).rule
        == Rule::dict_literal);
    if free {
        Ok(Value::FreeDict(d))
    } else {
        Ok(Value::Dict(d))
    }
}

/// Why a text is no document.
#[derive(Debug)]
pub enum ParseError {
    /// The text does not match the grammar.
    Syntax(SyntaxError),
    /// A literal of the text has no value.
    Literal(LiteralError),
}

/// Whether `r` is what reading text `s` as a document gives: the document of
/// its parse tree, the literal at fault, or the syntax error.
pub open spec fn is_parse_of(r: Result<Value, ParseError>, s: Seq<char>) -> bool {
    match r {
        Ok(v) => parses(Rule::program, s, MAX_DEPTH as nat) && document(
            parse_tree(Rule::program, s, MAX_DEPTH as nat),
            s,
        ) == Ok::<Val, LiteralError>(v@),
        Err(ParseError::Literal(e)) => parses(Rule::program, s, MAX_DEPTH as nat) && document(
            parse_tree(Rule::program, s, MAX_DEPTH as nat),
            s,
        ) == Err::<Val, LiteralError>(e),
        Err(ParseError::Syntax(e)) => is_syntax_error(e, Rule::program, s, MAX_DEPTH as nat),
    }
}

/// Whether `r` is what reading text `s` as one value gives: the value of its
/// parse tree where rule `data` matches all of the text, the literal at
/// fault, or the syntax error. Where the rule matches only a part of the
/// text, the error is a mismatch at the end of that part, where the end of
/// the text was expected.
pub open spec fn is_value_of(r: Result<Value, ParseError>, s: Seq<char>) -> bool {
    let whole = parses(Rule::data, s, MAX_DEPTH as nat) && parse_tree(
        Rule::data,
        s,
        MAX_DEPTH as nat,
    ).end == s.len();
    match r {
        Ok(v) => whole && data_value(parse_tree(Rule::data, s, MAX_DEPTH as nat), s) == Ok::<
            Val,
            LiteralError,
        >(v@),
        Err(ParseError::Literal(e)) => whole && data_value(
            parse_tree(Rule::data, s, MAX_DEPTH as nat),
            s,
        ) == Err::<Val, LiteralError>(e),
        Err(ParseError::Syntax(e)) => if parses(Rule::data, s, MAX_DEPTH as nat) {
            let end = parse_tree(Rule::data, s, MAX_DEPTH as nat).end;
            end < s.len() && match e {
                SyntaxError::Mismatch { at, expected } => at == position_of(s, end) && expected@
                    == seq![Rule::EOI],
                SyntaxError::TooDeep => false,
            }
        } else {
            is_syntax_error(e, Rule::data, s, MAX_DEPTH as nat)
        },
    }
}

/// Reads a text as a document. A literal error, if one comes, is a number
/// that does not fit.
pub fn parse(text: &str) -> (r: Result<Value, ParseError>)
    ensures
        is_parse_of(r, text@),
        r matches Err(ParseError::Literal(e)) ==> e.kind == Fault::Overflow,
{
    let input = to_chars(text);
    proof {
        literal_errors_are_overflows(input@, MAX_DEPTH as nat);
    }
    match ArcParser::parse_chars(Rule::program, &input, MAX_DEPTH) {
        Err(e) => Err(ParseError::Syntax(e)),
        Ok(root) => match build_document(&root, &input) {
            Err(e) => Err(ParseError::Literal(e)),
            Ok(v) => Ok(v),
        },
    }
}

/// Reads a text as one value: a number, a string, a list, a dictionary or
/// any other form that may stand behind a key. A literal error, if one
/// comes, is a number that does not fit.
pub fn parse_value(text: &str) -> (r: Result<Value, ParseError>)
    ensures
        is_value_of(r, text@),
        r matches Err(ParseError::Literal(e)) ==> e.kind == Fault::Overflow,
{
    let input = to_chars(text);
    proof {
        literal_errors_are_overflows(input@, MAX_DEPTH as nat);
    }
    match ArcParser::parse_chars(Rule::data, &input, MAX_DEPTH) {
        Err(e) => Err(ParseError::Syntax(e)),
        Ok(root) => {
            if root.end < input.len() {
                let mut expected: Vec<Rule> = Vec::new();
                expected.push(Rule::EOI);
                assert(expected@ =~= seq![Rule::EOI]);
                let at = locate(&input, root.end);
                return Err(ParseError::Syntax(SyntaxError::Mismatch { at, expected }));
            }
            match build_data(&root, &input) {
                Err(e) => Err(ParseError::Literal(e)),
                Ok(v) => Ok(v),
            }
        },
    }
}

} // verus!
