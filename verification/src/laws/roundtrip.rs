//! Reading the canonical text of a value gives the value back.

use vstd::prelude::*;
use crate::builder::{data_value, is_value_of, ParseError};
use crate::laws::dicts::{
    blanks, dict_built, dict_laid, dict_tree, dict_yields, empty_dict_yields, pair_laid,
    pair_trees, plain_key, values_read,
};
use crate::display::{items_text, lines_text, text_of};
use crate::laws::layout::{
    char_at, item_offset, item_reach, items_layout, key_reach, line_parts, line_text,
    lines_layout, part_at, value_offset, value_reach,
};
use crate::laws::floats::{exponent_reads, float_data, pointed_reads, with_exponent};
use crate::laws::lists::{
    bracket_data_yields, empty_list_yields, items_read, list_built, list_laid, list_tree,
    list_yields, starts_value,
};
use crate::laws::matches::{node, yields};
use crate::number::{digits as digits_of, Number};
use crate::laws::numerals::{
    closes, digits_facts, integer_data, integer_data_value, integer_data_yields, integer_text,
};
use crate::parser::{parse_tree, parses, MAX_DEPTH};
use crate::peg::{has_at, is_digit, Expr, State, Step, Tree};
use crate::rule::Rule;
use crate::scalar::LiteralError;
use crate::value::{keys_of, Val, Value};
use crate::laws::words::{special_data, special_data_yields, special_text, string_data, string_data_yields};

verus! {

/// The values that the law of this file speaks of: `null`, booleans,
/// integers (a negative one below zero), floating values (with an exponent
/// above the least that 32 bits hold), strings, lists of such values, and
/// dictionaries of such values whose keys differ and are plain words.
pub open spec fn readable(v: Val) -> bool
    decreases v,
{
    match v {
        Val::Null => true,
        Val::Boolean(_) => true,
        Val::String(_) => true,
        Val::Number(Number::PosInt(_)) => true,
        Val::Number(Number::NegInt(i)) => i < 0,
        Val::Number(Number::Float(x)) => x.exponent > i32::MIN,
        Val::List(items) => forall|i: int| 0 <= i < items.len() ==> readable(#[trigger] items[i]),
        Val::Dict(entries) => keys_of(entries).no_duplicates() && forall|i: int|
            0 <= i < entries.len() ==> plain_key((#[trigger] entries[i]).0) && readable(
                entries[i].1,
            ),
        _ => false,
    }
}

/// How many nested rules the grammar needs to read the text of a value.
pub open spec fn depth_of(v: Val) -> nat
    decreases v, 0nat,
{
    match v {
        Val::List(items) => 2 + deepest(items, items.len()),
        Val::Dict(entries) => 3 + deepest_value(entries, entries.len()),
        _ => 6,
    }
}

/// The largest depth among the first `n` of `items`, and at least six.
pub open spec fn deepest(items: Seq<Val>, n: nat) -> nat
    decreases items, n,
{
    if n == 0 || n > items.len() {
        6
    } else if deepest(items, (n - 1) as nat) >= depth_of(items[n - 1]) {
        deepest(items, (n - 1) as nat)
    } else {
        depth_of(items[n - 1])
    }
}

/// The largest depth among the values of the first `n` of `entries`, and at
/// least six.
pub open spec fn deepest_value(entries: Seq<(Seq<char>, Val)>, n: nat) -> nat
    decreases entries, n,
{
    if n == 0 || n > entries.len() {
        6
    } else if deepest_value(entries, (n - 1) as nat) >= depth_of(entries[n - 1].1) {
        deepest_value(entries, (n - 1) as nat)
    } else {
        depth_of(entries[n - 1].1)
    }
}

/// No value among the first `n` is deeper than the deepest of them.
proof fn deepest_bound(items: Seq<Val>, n: nat, i: int)
    requires
        0 <= i < n <= items.len(),
    ensures
        depth_of(items[i]) <= deepest(items, n),
        6 <= deepest(items, n),
    decreases n,
{
    if i + 1 < n {
        deepest_bound(items, (n - 1) as nat, i);
    } else if n > 1 {
        deepest_bound(items, (n - 1) as nat, i - 1);
    }
}

/// No value among the first `n` entries is deeper than the deepest of them.
proof fn deepest_value_bound(entries: Seq<(Seq<char>, Val)>, n: nat, i: int)
    requires
        0 <= i < n <= entries.len(),
    ensures
        depth_of(entries[i].1) <= deepest_value(entries, n),
        6 <= deepest_value(entries, n),
    decreases n,
{
    if i + 1 < n {
        deepest_value_bound(entries, (n - 1) as nat, i);
    } else if n > 1 {
        deepest_value_bound(entries, (n - 1) as nat, i - 1);
    }
}

/// Where value `i` of a list that starts at `pos` starts.
pub open spec fn item_start(items: Seq<Val>, pos: usize, i: int) -> usize {
    (pos + 1 + item_offset(items, i as nat)) as usize
}

/// Where value `i` of a list that starts at `pos` ends.
pub open spec fn item_end(items: Seq<Val>, pos: usize, i: int) -> usize {
    (pos + 1 + item_reach(items, i as nat)) as usize
}

/// Where the key of entry `i` of a dictionary that starts at `pos` starts.
pub open spec fn key_start(entries: Seq<(Seq<char>, Val)>, pos: usize, i: int) -> usize {
    if entries.len() == 1 {
        (pos + 1) as usize
    } else {
        (pos + 2 + lines_text(entries, i as nat).len() + 4) as usize
    }
}

/// Where the key of entry `i` ends.
pub open spec fn key_end(entries: Seq<(Seq<char>, Val)>, pos: usize, i: int) -> usize {
    (key_start(entries, pos, i) + entries[i].0.len()) as usize
}

/// Where the value of entry `i` starts.
pub open spec fn value_start(entries: Seq<(Seq<char>, Val)>, pos: usize, i: int) -> usize {
    if entries.len() == 1 {
        (key_end(entries, pos, i) + 1) as usize
    } else {
        (key_end(entries, pos, i) + 2) as usize
    }
}

/// Where the value of entry `i` ends.
pub open spec fn value_end(entries: Seq<(Seq<char>, Val)>, pos: usize, i: int) -> usize {
    (value_start(entries, pos, i) + text_of(entries[i].1).len()) as usize
}

/// The parse tree of the text of a readable value at `pos`.
pub open spec fn value_tree(v: Val, pos: usize) -> Tree
    decreases v, 1nat,
{
    let end = (pos + text_of(v).len()) as usize;
    match v {
        Val::Number(Number::PosInt(u)) => integer_data(pos, false, u as nat),
        Val::Number(Number::NegInt(i)) => integer_data(pos, true, (-i) as nat),
        Val::Number(Number::Float(x)) => float_data(pos, x),
        Val::String(src) => string_data(pos, src),
        Val::List(items) => node(
            Rule::data,
            pos,
            end,
            seq![list_tree(pos, end, item_trees(items, pos))],
        ),
        Val::Dict(entries) => node(
            Rule::data,
            pos,
            end,
            seq![
                dict_tree(
                    pos,
                    end,
                    pair_trees(
                        key_starts(entries, pos),
                        key_ends(entries, pos),
                        value_ends(entries, pos),
                        entry_trees(entries, pos),
                    ),
                ),
            ],
        ),
        _ => special_data(pos, v),
    }
}

/// The parse trees of the values of a list that starts at `pos`.
pub open spec fn item_trees(items: Seq<Val>, pos: usize) -> Seq<Tree>
    decreases items, 0nat,
{
    Seq::new(
        items.len(),
        |i: int|
            if 0 <= i < items.len() {
                value_tree(items[i], item_start(items, pos, i))
            } else {
                arbitrary()
            },
    )
}

/// The parse trees of the values of a dictionary that starts at `pos`.
pub open spec fn entry_trees(entries: Seq<(Seq<char>, Val)>, pos: usize) -> Seq<Tree>
    decreases entries, 0nat,
{
    Seq::new(
        entries.len(),
        |i: int|
            if 0 <= i < entries.len() {
                value_tree(entries[i].1, value_start(entries, pos, i))
            } else {
                arbitrary()
            },
    )
}

/// Where the values of a list that starts at `pos` start.
pub open spec fn item_starts(items: Seq<Val>, pos: usize) -> Seq<usize> {
    Seq::new(items.len(), |i: int| item_start(items, pos, i))
}

/// Where the values of a list that starts at `pos` end.
pub open spec fn item_ends(items: Seq<Val>, pos: usize) -> Seq<usize> {
    Seq::new(items.len(), |i: int| item_end(items, pos, i))
}

/// Where the keys of a dictionary that starts at `pos` start.
pub open spec fn key_starts(entries: Seq<(Seq<char>, Val)>, pos: usize) -> Seq<usize> {
    Seq::new(entries.len(), |i: int| key_start(entries, pos, i))
}

/// Where the keys of a dictionary that starts at `pos` end.
pub open spec fn key_ends(entries: Seq<(Seq<char>, Val)>, pos: usize) -> Seq<usize> {
    Seq::new(entries.len(), |i: int| key_end(entries, pos, i))
}

/// Where the values of a dictionary that starts at `pos` start.
pub open spec fn value_starts(entries: Seq<(Seq<char>, Val)>, pos: usize) -> Seq<usize> {
    Seq::new(entries.len(), |i: int| value_start(entries, pos, i))
}

/// Where the values of a dictionary that starts at `pos` end.
pub open spec fn value_ends(entries: Seq<(Seq<char>, Val)>, pos: usize) -> Seq<usize> {
    Seq::new(entries.len(), |i: int| value_end(entries, pos, i))
}

/// What holds of the text of a readable value `v` that stands at `pos`: the
/// text is not empty, rule `data` takes it whole as the tree of `v`, and the
/// builder makes `v` of that tree.
pub open spec fn read_at(v: Val, s: Seq<char>, pos: usize, d: nat) -> bool {
    &&& text_of(v).len() > 0
    &&& starts_value(s, pos as int)
    &&& yields(
        Expr::Node(Rule::data),
        s,
        pos,
        d,
        (pos + text_of(v).len()) as usize,
        seq![value_tree(v, pos)],
    )
    &&& value_tree(v, pos).rule == Rule::data
    &&& value_tree(v, pos).end == pos + text_of(v).len()
    &&& data_value(value_tree(v, pos), s) == Ok::<Val, LiteralError>(v)
}

/// Value `i` of a list whose text stands at `pos` stands at its place, and
/// a comma and a space or the closing bracket follow it.
proof fn item_place(items: Seq<Val>, s: Seq<char>, pos: usize, i: int)
    requires
        s.len() <= usize::MAX,
        0 <= i < items.len(),
        has_at(s, pos, text_of(Val::List(items))),
    ensures
        item_start(items, pos, i) == pos + 1 + item_offset(items, i as nat),
        item_end(items, pos, i) == item_start(items, pos, i) + text_of(items[i]).len(),
        item_end(items, pos, i) < pos + text_of(Val::List(items)).len(),
        has_at(s, item_start(items, pos, i), text_of(items[i])),
        i + 1 < items.len() ==> s[item_end(items, pos, i) as int] == ',' && s[item_end(
            items,
            pos,
            i,
        ) + 1] == ' ' && item_start(items, pos, i + 1) == item_end(items, pos, i) + 2,
        i + 1 == items.len() ==> s[item_end(items, pos, i) as int] == ']' && item_end(
            items,
            pos,
            i,
        ) + 1 == pos + text_of(Val::List(items)).len(),
        i == 0 ==> item_start(items, pos, i) == pos + 1,
        s[pos as int] == '[',
{
    let n = items.len();
    let inner = items_text(items, n);
    let all = text_of(Val::List(items));
    let off = item_offset(items, i as nat);
    let reach = item_reach(items, i as nat);
    let own = text_of(items[i]);
    assert(all == seq!['['] + inner + seq![']']);
    items_layout(items, n, i as nat);
    assert(all.subrange(1 + off, 1 + reach) =~= inner.subrange(off, reach));
    part_at(s, pos, all, 1 + off, own);
    char_at(s, pos, all, 0);
    char_at(s, pos, all, 1 + reach);
    if i + 1 < n {
        char_at(s, pos, all, 1 + reach + 1);
        items_layout(items, n, (i + 1) as nat);
        assert(all[1 + reach] == inner[reach]);
        assert(all[1 + reach + 1] == inner[reach + 1]);
    } else {
        assert(all[1 + reach] == ']');
    }
}

/// Whether each value of a list whose text stands at `pos` is read at its
/// place.
pub open spec fn items_read_at(items: Seq<Val>, s: Seq<char>, pos: usize, d: nat) -> bool {
    forall|i: int|
        0 <= i < items.len() ==> #[trigger] read_at(items[i], s, item_start(items, pos, i), d)
}

/// The text of a list is laid out as a list literal.
proof fn list_is_laid(items: Seq<Val>, s: Seq<char>, pos: usize, d: nat)
    requires
        s.len() <= usize::MAX,
        items.len() >= 1,
        has_at(s, pos, text_of(Val::List(items))),
        items_read_at(items, s, pos, d),
    ensures
        list_laid(s, pos, item_starts(items, pos), item_ends(items, pos)),
        item_ends(items, pos)[items.len() - 1] + 1 == pos + text_of(Val::List(items)).len(),
{
    let n = items.len() as int;
    let a = item_starts(items, pos);
    let b = item_ends(items, pos);
    assert forall|i: int| 0 <= i < n implies (#[trigger] a[i]) < b[i] < s.len() by {
        item_place(items, s, pos, i);
        assert(read_at(items[i], s, item_start(items, pos, i), d));
    }
    assert forall|i: int| 0 <= i < n - 1 implies s[(#[trigger] b[i]) as int] == ',' && s[b[i] + 1]
        == ' ' && a[i + 1] == b[i] + 2 by {
        item_place(items, s, pos, i);
    }
    assert forall|i: int| 0 <= i < n implies starts_value(s, (#[trigger] a[i]) as int) by {
        assert(read_at(items[i], s, item_start(items, pos, i), d));
    }
    item_place(items, s, pos, 0);
    item_place(items, s, pos, n - 1);
}

/// The values of a list whose text stands at `pos` are read as the nodes
/// of the list's tree.
proof fn list_is_read(items: Seq<Val>, s: Seq<char>, pos: usize, d: nat)
    requires
        s.len() <= usize::MAX,
        has_at(s, pos, text_of(Val::List(items))),
        items_read_at(items, s, pos, d),
    ensures
        items_read(s, item_starts(items, pos), item_ends(items, pos), item_trees(items, pos), d),
        forall|i: int|
            0 <= i < items.len() ==> (#[trigger] item_trees(items, pos)[i]).rule == Rule::data
                && data_value(item_trees(items, pos)[i], s) == Ok::<Val, LiteralError>(items[i]),
{
    let a = item_starts(items, pos);
    let b = item_ends(items, pos);
    let t = item_trees(items, pos);
    assert forall|i: int| 0 <= i < a.len() implies #[trigger] yields(
        Expr::Node(Rule::data),
        s,
        a[i],
        d,
        b[i],
        seq![t[i]],
    ) by {
        item_place(items, s, pos, i);
        assert(read_at(items[i], s, item_start(items, pos, i), d));
    }
    assert forall|i: int| 0 <= i < items.len() implies (#[trigger] t[i]).rule == Rule::data
        && data_value(t[i], s) == Ok::<Val, LiteralError>(items[i]) by {
        assert(read_at(items[i], s, item_start(items, pos, i), d));
    }
}

/// Rule `data` takes the text of a list whole, and the builder makes the
/// list of it, where that holds of each of the list's values.
proof fn list_reads(items: Seq<Val>, s: Seq<char>, pos: usize, d: nat)
    requires
        s.len() <= usize::MAX,
        has_at(s, pos, text_of(Val::List(items))),
        d >= 8,
        items_read_at(items, s, pos, (d - 2) as nat),
    ensures
        read_at(Val::List(items), s, pos, d),
{
    let n = items.len() as int;
    let v = Val::List(items);
    let all = text_of(v);
    let end = (pos + all.len()) as usize;
    assert(all == seq!['['] + items_text(items, items.len()) + seq![']']);
    char_at(s, pos, all, 0);
    let t = item_trees(items, pos);
    if n == 0 {
        assert(all =~= seq!['[', ']']);
        char_at(s, pos, all, 1);
        empty_list_yields(s, pos, (d - 1) as nat);
        assert(t =~= Seq::<Tree>::empty());
    } else {
        list_is_laid(items, s, pos, (d - 2) as nat);
        list_is_read(items, s, pos, (d - 2) as nat);
        list_yields(s, pos, item_starts(items, pos), item_ends(items, pos), t, (d - 1) as nat);
    }
    bracket_data_yields(s, pos, d, end, list_tree(pos, end, t));
    list_is_read(items, s, pos, (d - 2) as nat);
    list_built(s, pos, end, t, items);
}

/// Where the closing bracket of a dictionary of at least one entry stands.
pub open spec fn close_of(entries: Seq<(Seq<char>, Val)>, pos: usize) -> usize {
    (pos + text_of(Val::Dict(entries)).len() - 1) as usize
}

/// What holds of entry `i` of a dictionary whose text stands at `pos`: the
/// key, the `:`, the white space and the value stand at their places, and a
/// comma or the closing bracket follows.
pub open spec fn entry_placed(
    entries: Seq<(Seq<char>, Val)>,
    s: Seq<char>,
    pos: usize,
    i: int,
) -> bool {
    let ks = key_start(entries, pos, i);
    let ke = key_end(entries, pos, i);
    let vs = value_start(entries, pos, i);
    let ve = value_end(entries, pos, i);
    let close = close_of(entries, pos);
    &&& pos < ks
    &&& ke == ks + entries[i].0.len()
    &&& ke < vs
    &&& ve == vs + text_of(entries[i].1).len()
    &&& ve <= close < s.len()
    &&& s[pos as int] == '{'
    &&& s[close as int] == '}'
    &&& s.subrange(ks as int, ke as int) == entries[i].0
    &&& s[ke as int] == ':'
    &&& blanks(s, ke + 1, vs as int)
    &&& has_at(s, vs, text_of(entries[i].1))
    &&& (s[ve as int] == ',' || s[ve as int] == '}')
    &&& i == 0 ==> blanks(s, pos + 1, ks as int)
    &&& i + 1 < entries.len() ==> s[ve as int] == ',' && blanks(
        s,
        ve + 1,
        key_start(entries, pos, i + 1) as int,
    )
    &&& i + 1 == entries.len() ==> close == ve || (s[ve as int] == ',' && blanks(
        s,
        ve + 1,
        close as int,
    ))
}

/// The one entry of a dictionary written on one line stands at its place.
proof fn single_place(entries: Seq<(Seq<char>, Val)>, s: Seq<char>, pos: usize)
    requires
        s.len() <= usize::MAX,
        entries.len() == 1,
        has_at(s, pos, text_of(Val::Dict(entries))),
    ensures
        entry_placed(entries, s, pos, 0),
{
    let k = entries[0].0;
    let own = text_of(entries[0].1);
    let all = text_of(Val::Dict(entries));
    assert(all == seq!['{'] + k + seq![':'] + own + seq!['}']);
    let ks = key_start(entries, pos, 0);
    let ke = key_end(entries, pos, 0);
    let vs = value_start(entries, pos, 0);
    let ve = value_end(entries, pos, 0);
    let kl = k.len() as int;
    let ol = own.len() as int;
    assert(all.subrange(1, 1 + kl) =~= k);
    part_at(s, pos, all, 1, k);
    assert(all.subrange(2 + kl, 2 + kl + ol) =~= own);
    part_at(s, pos, all, 2 + kl, own);
    char_at(s, pos, all, 0);
    char_at(s, pos, all, 1 + kl);
    char_at(s, pos, all, 2 + kl + ol);
}

/// Character `j` of the line of entry `i` stands at its place.
proof fn line_place(entries: Seq<(Seq<char>, Val)>, s: Seq<char>, pos: usize, i: int, j: int)
    requires
        s.len() <= usize::MAX,
        entries.len() >= 2,
        0 <= i < entries.len(),
        0 <= j < line_text(entries[i]).len(),
        has_at(s, pos, text_of(Val::Dict(entries))),
    ensures
        pos + 2 + lines_text(entries, i as nat).len() + j < pos + text_of(Val::Dict(entries)).len()
            - 1,
        s[pos + 2 + lines_text(entries, i as nat).len() + j] == line_text(entries[i])[j],
{
    reveal_strlit("{\n");
    let n = entries.len();
    let lines = lines_text(entries, n);
    let all = text_of(Val::Dict(entries));
    assert(all == "{\n"@ + lines + seq!['}']);
    lines_layout(entries, n, i as nat);
    let from = lines_text(entries, i as nat).len() as int;
    let to = lines_text(entries, (i + 1) as nat).len() as int;
    assert(lines.subrange(from, to)[j] == lines[from + j]);
    char_at(s, pos, all, 2 + from + j);
    assert(all[2 + from + j] == lines[from + j]);
}

/// Whether the line of entry `e` stands at `base`.
pub open spec fn line_at(s: Seq<char>, base: int, e: (Seq<char>, Val)) -> bool {
    &&& 0 <= base
    &&& base + line_text(e).len() <= s.len()
    &&& forall|j: int| 0 <= j < line_text(e).len() ==> s[base + j] == #[trigger] line_text(e)[j]
}

/// The parts of a line that stands at `base` stand at their places.
proof fn line_stands(s: Seq<char>, base: int, e: (Seq<char>, Val))
    requires
        line_at(s, base, e),
    ensures
        forall|x: int| base <= x < base + 4 ==> s[x] == ' ',
        s.subrange(base + 4, base + key_reach(e)) == e.0,
        s[base + key_reach(e)] == ':',
        s[base + key_reach(e) + 1] == ' ',
        s.subrange(base + value_offset(e), base + value_reach(e)) == text_of(e.1),
        s[base + value_reach(e)] == ',',
        s[base + value_reach(e) + 1] == '\n',
        line_text(e).len() == value_reach(e) + 2,
{
    let line = line_text(e);
    line_parts(e);
    assert forall|x: int| base <= x < base + 4 implies s[x] == ' ' by {
        assert(s[base + (x - base)] == line[x - base]);
    }
    assert(s.subrange(base + 4, base + key_reach(e)) =~= e.0) by {
        assert forall|j: int| 0 <= j < e.0.len() implies s.subrange(
            base + 4,
            base + key_reach(e),
        )[j] == e.0[j] by {
            assert(s[base + (4 + j)] == line[4 + j]);
            assert(line.subrange(4, key_reach(e))[j] == line[4 + j]);
        }
    }
    assert(s.subrange(base + value_offset(e), base + value_reach(e)) =~= text_of(e.1)) by {
        assert forall|j: int| 0 <= j < text_of(e.1).len() implies s.subrange(
            base + value_offset(e),
            base + value_reach(e),
        )[j] == text_of(e.1)[j] by {
            assert(s[base + (value_offset(e) + j)] == line[value_offset(e) + j]);
            assert(line.subrange(value_offset(e), value_reach(e))[j] == line[value_offset(e) + j]);
        }
    }
    assert(s[base + key_reach(e)] == line[key_reach(e)]);
    assert(s[base + (key_reach(e) + 1)] == line[key_reach(e) + 1]);
    assert(s[base + value_reach(e)] == line[value_reach(e)]);
    assert(s[base + (value_reach(e) + 1)] == line[value_reach(e) + 1]);
}

/// The line of entry `i` of a dictionary of several stands at its place.
proof fn lines_at(entries: Seq<(Seq<char>, Val)>, s: Seq<char>, pos: usize, i: int)
    requires
        s.len() <= usize::MAX,
        entries.len() >= 2,
        0 <= i < entries.len(),
        has_at(s, pos, text_of(Val::Dict(entries))),
    ensures
        line_at(s, pos + 2 + lines_text(entries, i as nat).len(), entries[i]),
        lines_text(entries, (i + 1) as nat).len() == lines_text(entries, i as nat).len()
            + line_text(entries[i]).len(),
        pos + 2 + lines_text(entries, (i + 1) as nat).len() <= close_of(entries, pos),
        i + 1 == entries.len() ==> pos + 2 + lines_text(entries, (i + 1) as nat).len()
            == close_of(entries, pos),
        close_of(entries, pos) < s.len(),
        s[pos as int] == '{',
        s[pos + 1] == '\n',
        s[close_of(entries, pos) as int] == '}',
{
    reveal_strlit("{\n");
    let n = entries.len();
    let all = text_of(Val::Dict(entries));
    let base = pos + 2 + lines_text(entries, i as nat).len();
    assert(all == "{\n"@ + lines_text(entries, n) + seq!['}']);
    lines_layout(entries, n, i as nat);
    assert forall|j: int| 0 <= j < line_text(entries[i]).len() implies s[base + j]
        == #[trigger] line_text(entries[i])[j] by {
        line_place(entries, s, pos, i, j);
    }
    char_at(s, pos, all, 0);
    char_at(s, pos, all, 1);
    char_at(s, pos, all, all.len() - 1);
}

/// Entry `i` of a dictionary of several stands at its place.
proof fn lines_place(entries: Seq<(Seq<char>, Val)>, s: Seq<char>, pos: usize, i: int)
    requires
        s.len() <= usize::MAX,
        entries.len() >= 2,
        0 <= i < entries.len(),
        has_at(s, pos, text_of(Val::Dict(entries))),
    ensures
        entry_placed(entries, s, pos, i),
{
    let n = entries.len();
    let e = entries[i];
    let base = pos + 2 + lines_text(entries, i as nat).len();
    lines_at(entries, s, pos, i);
    line_stands(s, base, e);
    let ks = key_start(entries, pos, i);
    let ke = key_end(entries, pos, i);
    let vs = value_start(entries, pos, i);
    let ve = value_end(entries, pos, i);
    let close = close_of(entries, pos);
    assert(ks == base + 4);
    assert(ke == base + key_reach(e));
    assert(vs == base + value_offset(e));
    assert(ve == base + value_reach(e));
    assert(blanks(s, ke + 1, vs as int));
    if i == 0 {
        assert(blanks(s, pos + 1, ks as int));
    }
    if i + 1 < n {
        let next = entries[i + 1];
        lines_at(entries, s, pos, i + 1);
        line_stands(s, ve + 2, next);
        let after = key_start(entries, pos, i + 1);
        assert(after == ve + 2 + 4);
        assert(blanks(s, ve + 1, after as int));
    } else {
        assert(close == ve + 2);
        assert(blanks(s, ve + 1, close as int));
    }
}

/// Whether each value of a dictionary whose text stands at `pos` is read at
/// its place.
pub open spec fn values_read_at(
    entries: Seq<(Seq<char>, Val)>,
    s: Seq<char>,
    pos: usize,
    d: nat,
) -> bool {
    forall|i: int|
        0 <= i < entries.len() ==> #[trigger] read_at(
            entries[i].1,
            s,
            value_start(entries, pos, i),
            d,
        )
}

/// Whether each entry of a dictionary whose text stands at `pos` stands at
/// its place.
pub open spec fn entries_placed(entries: Seq<(Seq<char>, Val)>, s: Seq<char>, pos: usize) -> bool {
    forall|i: int| 0 <= i < entries.len() ==> #[trigger] entry_placed(entries, s, pos, i)
}

/// Each entry of a dictionary whose text stands at `pos` stands at its
/// place.
proof fn dict_is_placed(entries: Seq<(Seq<char>, Val)>, s: Seq<char>, pos: usize)
    requires
        s.len() <= usize::MAX,
        entries.len() >= 1,
        has_at(s, pos, text_of(Val::Dict(entries))),
    ensures
        entries_placed(entries, s, pos),
{
    assert forall|i: int| 0 <= i < entries.len() implies #[trigger] entry_placed(
        entries,
        s,
        pos,
        i,
    ) by {
        if entries.len() == 1 {
            single_place(entries, s, pos);
        } else {
            lines_place(entries, s, pos, i);
        }
    }
}

/// The text of a dictionary is laid out as a dictionary literal.
proof fn dict_is_laid(entries: Seq<(Seq<char>, Val)>, s: Seq<char>, pos: usize, d: nat)
    requires
        s.len() <= usize::MAX,
        entries.len() >= 1,
        entries_placed(entries, s, pos),
        values_read_at(entries, s, pos, d),
        forall|i: int| 0 <= i < entries.len() ==> plain_key((#[trigger] entries[i]).0),
    ensures
        dict_laid(
            s,
            pos,
            key_starts(entries, pos),
            key_ends(entries, pos),
            value_starts(entries, pos),
            value_ends(entries, pos),
            close_of(entries, pos),
        ),
{
    let n = entries.len() as int;
    let ks = key_starts(entries, pos);
    let ke = key_ends(entries, pos);
    let vs = value_starts(entries, pos);
    let ve = value_ends(entries, pos);
    assert forall|i: int| 0 <= i < n implies pair_laid(s, #[trigger] ks[i], ke[i], vs[i], ve[i]) by {
        assert(entry_placed(entries, s, pos, i));
        assert(read_at(entries[i].1, s, value_start(entries, pos, i), d));
        assert(plain_key(entries[i].0));
    }
    assert forall|i: int| 0 <= i < n - 1 implies s[(#[trigger] ve[i]) as int] == ',' && blanks(
        s,
        ve[i] + 1,
        ks[i + 1] as int,
    ) by {
        assert(entry_placed(entries, s, pos, i));
    }
    assert(entry_placed(entries, s, pos, 0));
    assert(entry_placed(entries, s, pos, n - 1));
}

/// The values of a dictionary whose text stands at `pos` are read as the
/// nodes of the dictionary's tree.
proof fn dict_is_read(entries: Seq<(Seq<char>, Val)>, s: Seq<char>, pos: usize, d: nat)
    requires
        s.len() <= usize::MAX,
        entries_placed(entries, s, pos),
        values_read_at(entries, s, pos, d),
    ensures
        values_read(
            s,
            value_starts(entries, pos),
            value_ends(entries, pos),
            entry_trees(entries, pos),
            d,
        ),
        forall|i: int|
            0 <= i < entries.len() ==> (#[trigger] entry_trees(entries, pos)[i]).rule == Rule::data
                && data_value(entry_trees(entries, pos)[i], s) == Ok::<Val, LiteralError>(
                entries[i].1,
            ),
        forall|i: int|
            0 <= i < entries.len() ==> (#[trigger] key_starts(entries, pos)[i]) <= key_ends(
                entries,
                pos,
            )[i] <= s.len() && s.subrange(
                key_starts(entries, pos)[i] as int,
                key_ends(entries, pos)[i] as int,
            ) == entries[i].0,
{
    let vs = value_starts(entries, pos);
    let ve = value_ends(entries, pos);
    let t = entry_trees(entries, pos);
    assert forall|i: int| 0 <= i < vs.len() implies #[trigger] yields(
        Expr::Node(Rule::data),
        s,
        vs[i],
        d,
        ve[i],
        seq![t[i]],
    ) by {
        assert(entry_placed(entries, s, pos, i));
        assert(read_at(entries[i].1, s, value_start(entries, pos, i), d));
    }
    assert forall|i: int| 0 <= i < entries.len() implies (#[trigger] t[i]).rule == Rule::data
        && data_value(t[i], s) == Ok::<Val, LiteralError>(entries[i].1) by {
        assert(read_at(entries[i].1, s, value_start(entries, pos, i), d));
    }
    assert forall|i: int| 0 <= i < entries.len() implies (#[trigger] key_starts(entries, pos)[i])
        <= key_ends(entries, pos)[i] <= s.len() && s.subrange(
        key_starts(entries, pos)[i] as int,
        key_ends(entries, pos)[i] as int,
    ) == entries[i].0 by {
        assert(entry_placed(entries, s, pos, i));
    }
}

/// The text of the dictionary without entries is read back.
proof fn empty_dict_reads(s: Seq<char>, pos: usize, d: nat)
    requires
        s.len() <= usize::MAX,
        has_at(s, pos, text_of(Val::Dict(Seq::empty()))),
        d >= 9,
    ensures
        read_at(Val::Dict(Seq::empty()), s, pos, d),
{
    let entries = Seq::<(Seq<char>, Val)>::empty();
    let all = text_of(Val::Dict(entries));
    let end = (pos + all.len()) as usize;
    let t = entry_trees(entries, pos);
    let pairs = pair_trees(key_starts(entries, pos), key_ends(entries, pos), value_ends(entries, pos), t);
    reveal_strlit("{}");
    assert(all == "{}"@);
    char_at(s, pos, all, 0);
    char_at(s, pos, all, 1);
    empty_dict_yields(s, pos, (d - 1) as nat);
    assert(pairs =~= Seq::<Tree>::empty());
    bracket_data_yields(s, pos, d, end, dict_tree(pos, end, pairs));
    dict_built(
        s,
        pos,
        end,
        key_starts(entries, pos),
        key_ends(entries, pos),
        value_ends(entries, pos),
        t,
        entries,
    );
}

/// Rule `dict_literal` takes the text of a dictionary whole.
#[verifier::spinoff_prover]
#[verifier::rlimit(60)]
proof fn dict_is_taken(entries: Seq<(Seq<char>, Val)>, s: Seq<char>, pos: usize, d: nat)
    requires
        s.len() <= usize::MAX,
        entries.len() >= 1,
        has_at(s, pos, text_of(Val::Dict(entries))),
        d >= 9,
        forall|i: int| 0 <= i < entries.len() ==> plain_key((#[trigger] entries[i]).0),
        values_read_at(entries, s, pos, (d - 3) as nat),
    ensures
        s[pos as int] == '{',
        pos < s.len(),
        yields(
            Expr::Node(Rule::dict_literal),
            s,
            pos,
            (d - 1) as nat,
            (pos + text_of(Val::Dict(entries)).len()) as usize,
            seq![
                dict_tree(
                    pos,
                    (pos + text_of(Val::Dict(entries)).len()) as usize,
                    pair_trees(
                        key_starts(entries, pos),
                        key_ends(entries, pos),
                        value_ends(entries, pos),
                        entry_trees(entries, pos),
                    ),
                ),
            ],
        ),
{
    dict_is_placed(entries, s, pos);
    assert(entry_placed(entries, s, pos, 0));
    dict_is_laid(entries, s, pos, (d - 3) as nat);
    dict_is_read(entries, s, pos, (d - 3) as nat);
    dict_yields(
        s,
        pos,
        key_starts(entries, pos),
        key_ends(entries, pos),
        value_starts(entries, pos),
        value_ends(entries, pos),
        close_of(entries, pos),
        entry_trees(entries, pos),
        (d - 1) as nat,
    );
}

/// Rule `data` takes the text of a dictionary whole, and the builder makes
/// the dictionary of it, where that holds of each of the dictionary's
/// values.
proof fn dict_reads(entries: Seq<(Seq<char>, Val)>, s: Seq<char>, pos: usize, d: nat)
    requires
        s.len() <= usize::MAX,
        entries.len() >= 1,
        has_at(s, pos, text_of(Val::Dict(entries))),
        d >= 9,
        keys_of(entries).no_duplicates(),
        forall|i: int| 0 <= i < entries.len() ==> plain_key((#[trigger] entries[i]).0),
        values_read_at(entries, s, pos, (d - 3) as nat),
    ensures
        read_at(Val::Dict(entries), s, pos, d),
{
    let end = (pos + text_of(Val::Dict(entries)).len()) as usize;
    let ks = key_starts(entries, pos);
    let ke = key_ends(entries, pos);
    let ve = value_ends(entries, pos);
    let t = entry_trees(entries, pos);
    dict_is_taken(entries, s, pos, d);
    bracket_data_yields(s, pos, d, end, dict_tree(pos, end, pair_trees(ks, ke, ve, t)));
    dict_is_placed(entries, s, pos);
    dict_is_read(entries, s, pos, (d - 3) as nat);
    dict_built(s, pos, end, ks, ke, ve, t, entries);
}

/// The text of a value that is no list and no dictionary is read back.
proof fn scalar_reads(v: Val, s: Seq<char>, pos: usize, d: nat)
    requires
        readable(v),
        !(v is List) && !(v is Dict),
        s.len() <= usize::MAX,
        has_at(s, pos, text_of(v)),
        closes(s, pos + text_of(v).len()),
        d >= 6,
    ensures
        read_at(v, s, pos, d),
{
    reveal_strlit("true");
    reveal_strlit("false");
    reveal_strlit("null");
    match v {
        Val::Number(Number::PosInt(u)) => {
            digits_facts(u as nat);
            assert(is_digit(digits_of(u as nat)[0]));
            char_at(s, pos, text_of(v), 0);
            integer_data_yields(s, pos, false, u as nat, d);
            integer_data_value(s, pos, false, u as nat);
        },
        Val::Number(Number::NegInt(i)) => {
            let m = (-i) as nat;
            assert(text_of(v) == integer_text(true, m));
            char_at(s, pos, text_of(v), 0);
            integer_data_yields(s, pos, true, m, d);
            integer_data_value(s, pos, true, m);
        },
        Val::Number(Number::Float(x)) => {
            if with_exponent(x) {
                exponent_reads(s, pos, x, d);
            } else {
                pointed_reads(s, pos, x, d);
            }
        },
        Val::String(src) => {
            char_at(s, pos, text_of(v), 0);
            string_data_yields(s, pos, src, d);
        },
        _ => {
            assert(text_of(v) == special_text(v));
            char_at(s, pos, text_of(v), 0);
            special_data_yields(s, pos, v, d);
        },
    }
}

/// Rule `data` takes the text of a readable value whole where a value is
/// closed behind it, and the builder makes the value of its tree.
pub proof fn reads(v: Val, s: Seq<char>, pos: usize, d: nat)
    requires
        readable(v),
        s.len() <= usize::MAX,
        has_at(s, pos, text_of(v)),
        closes(s, pos + text_of(v).len()),
        d >= depth_of(v),
    ensures
        read_at(v, s, pos, d),
    decreases v,
{
    match v {
        Val::List(items) => {
            assert forall|i: int| 0 <= i < items.len() implies #[trigger] read_at(
                items[i],
                s,
                item_start(items, pos, i),
                (d - 2) as nat,
            ) by {
                item_place(items, s, pos, i);
                deepest_bound(items, items.len(), i);
                reads(items[i], s, item_start(items, pos, i), (d - 2) as nat);
            }
            if items.len() > 0 {
                deepest_bound(items, items.len(), 0);
            }
            list_reads(items, s, pos, d);
        },
        Val::Dict(entries) => {
            if entries.len() > 0 {
                dict_is_placed(entries, s, pos);
                deepest_value_bound(entries, entries.len(), 0);
            }
            assert forall|i: int| 0 <= i < entries.len() implies #[trigger] read_at(
                entries[i].1,
                s,
                value_start(entries, pos, i),
                (d - 3) as nat,
            ) by {
                assert(entry_placed(entries, s, pos, i));
                deepest_value_bound(entries, entries.len(), i);
                reads(entries[i].1, s, value_start(entries, pos, i), (d - 3) as nat);
            }
            if entries.len() > 0 {
                dict_reads(entries, s, pos, d);
            } else {
                assert(entries =~= Seq::<(Seq<char>, Val)>::empty());
                empty_dict_reads(s, pos, d);
            }
        },
        _ => {
            scalar_reads(v, s, pos, d);
        },
    }
}

/// Reading the canonical text of a value gives the value back.
///
/// This holds of every value made of `null`, booleans, numbers, strings,
/// lists and dictionaries whose keys are plain words, provided that the text
/// fits in memory and the value is not nested deeper than the parser
/// allows: the text matches rule `data` from its first to its last
/// character, the builder makes the value of the parse tree, and so every
/// result that `parse_value` may give for the text is that value.
pub proof fn round_trip(v: Val)
    requires
        readable(v),
        text_of(v).len() <= usize::MAX,
        depth_of(v) <= MAX_DEPTH,
    ensures
        parses(Rule::data, text_of(v), MAX_DEPTH as nat),
        parse_tree(Rule::data, text_of(v), MAX_DEPTH as nat).end == text_of(v).len(),
        data_value(parse_tree(Rule::data, text_of(v), MAX_DEPTH as nat), text_of(v)) == Ok::<
            Val,
            LiteralError,
        >(v),
        forall|r: Result<Value, ParseError>| #[trigger]
            is_value_of(r, text_of(v)) ==> (match r {
                Ok(w) => w@ == v,
                Err(_) => false,
            }),
{
    let s = text_of(v);
    assert(s.subrange(0, s.len() as int) =~= s);
    reads(v, s, 0, MAX_DEPTH as nat);
    let st = State { nodes: Seq::empty(), far: 0, expected: Seq::empty() };
    let out = crate::peg::eval(Expr::Node(Rule::data), s, 0, MAX_DEPTH as nat, false, st);
    assert(out.0 == Step::Match(s.len() as usize));
    assert(out.1.nodes =~= st.nodes + seq![value_tree(v, 0)]);
    assert(out.1.nodes[0] == value_tree(v, 0));
}

} // verus!
