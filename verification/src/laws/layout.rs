//! Where the parts of the canonical text of a list or a dictionary stand.

use vstd::prelude::*;
use crate::laws::dicts::{blanks};
use crate::display::{items_text, lines_text, text_of};
use crate::peg::has_at;
use crate::value::Val;

verus! {

/// A text that stands at `pos` has each of its characters there.
pub proof fn char_at(s: Seq<char>, pos: usize, t: Seq<char>, j: int)
    requires
        has_at(s, pos, t),
        0 <= j < t.len(),
    ensures
        s[pos + j] == t[j],
{
    assert(s.subrange(pos as int, pos + t.len())[j] == t[j]);
}

/// A part of a text that stands at `pos` stands where it lies in the text.
pub proof fn part_at(s: Seq<char>, pos: usize, t: Seq<char>, off: int, u: Seq<char>)
    requires
        s.len() <= usize::MAX,
        has_at(s, pos, t),
        0 <= off,
        off + u.len() <= t.len(),
        t.subrange(off, off + u.len()) == u,
    ensures
        has_at(s, (pos + off) as usize, u),
{
    assert forall|j: int| 0 <= j < u.len() implies s.subrange(pos + off, pos + off + u.len())[j]
        == u[j] by {
        char_at(s, pos, t, off + j);
        assert(t.subrange(off, off + u.len())[j] == t[off + j]);
    }
    assert(s.subrange(pos + off, pos + off + u.len()) =~= u);
}

/// How far behind the first value of a list the value `i` starts.
pub open spec fn item_offset(items: Seq<Val>, i: nat) -> int {
    if i == 0 {
        0
    } else {
        (items_text(items, i).len() + 2) as int
    }
}

/// How far behind the first value of a list the value `i` ends.
pub open spec fn item_reach(items: Seq<Val>, i: nat) -> int {
    item_offset(items, i) + text_of(items[i as int]).len()
}

/// In the text of the first `n` values of a list, value `i` stands at its
/// offset, and `, ` follows it unless it is the last.
pub proof fn items_layout(items: Seq<Val>, n: nat, i: nat)
    requires
        i < n <= items.len(),
    ensures
        0 <= item_offset(items, i),
        item_reach(items, i) <= items_text(items, n).len(),
        items_text(items, n).subrange(item_offset(items, i), item_reach(items, i)) == text_of(
            items[i as int],
        ),
        items_text(items, (i + 1) as nat).len() == item_reach(items, i),
        i + 1 < n ==> items_text(items, n)[item_reach(items, i)] == ',' && items_text(items, n)[
            item_reach(items, i) + 1] == ' ' && item_reach(items, i) + 2 <= items_text(
            items,
            n,
        ).len(),
        i + 1 == n ==> items_text(items, n).len() == item_reach(items, i),
    decreases n,
{
    reveal_strlit(", ");
    let all = items_text(items, n);
    let own = text_of(items[i as int]);
    let off = item_offset(items, i);
    if n == 1 {
        assert(all.subrange(0, own.len() as int) =~= own);
    } else {
        let head = items_text(items, (n - 1) as nat);
        let last = text_of(items[n - 1]);
        assert(all == head + ", "@ + last);
        if i + 1 == n {
            assert(all.subrange(off, off + own.len()) =~= own);
        } else {
            items_layout(items, (n - 1) as nat, i);
            assert(all.subrange(off, off + own.len()) =~= head.subrange(off, off + own.len()));
            if i + 2 == n {
                assert(all[off + own.len()] == ", "@[0]);
                assert(all[off + own.len() + 1] == ", "@[1]);
            } else {
                assert(all[off + own.len()] == head[off + own.len()]);
                assert(all[off + own.len() + 1] == head[off + own.len() + 1]);
            }
        }
    }
}

/// The line of one entry in the text of a dictionary of several.
pub open spec fn line_text(entry: (Seq<char>, Val)) -> Seq<char> {
    "    "@ + entry.0 + ": "@ + text_of(entry.1) + ",\n"@
}

/// In the lines of the first `n` entries, the line of entry `i` stands
/// behind the lines of the entries before it.
pub proof fn lines_layout(entries: Seq<(Seq<char>, Val)>, n: nat, i: nat)
    requires
        i < n <= entries.len(),
    ensures
        lines_text(entries, (i + 1) as nat) == lines_text(entries, i) + line_text(
            entries[i as int],
        ),
        lines_text(entries, (i + 1) as nat).len() <= lines_text(entries, n).len(),
        lines_text(entries, n).subrange(
            lines_text(entries, i).len() as int,
            lines_text(entries, (i + 1) as nat).len() as int,
        ) == line_text(entries[i as int]),
    decreases n,
{
    let all = lines_text(entries, n);
    let head = lines_text(entries, (n - 1) as nat);
    let own = line_text(entries[i as int]);
    let e = entries[n - 1];
    assert(all == head + "    "@ + e.0 + ": "@ + text_of(e.1) + ",\n"@);
    assert(all =~= head + line_text(e));
    if i + 1 == n {
        assert(all.subrange(head.len() as int, all.len() as int) =~= own);
    } else {
        lines_layout(entries, (n - 1) as nat, i);
        let from = lines_text(entries, i).len() as int;
        let to = lines_text(entries, (i + 1) as nat).len() as int;
        assert(all.subrange(from, to) =~= head.subrange(from, to));
    }
}

/// Where the key of a line ends.
pub open spec fn key_reach(entry: (Seq<char>, Val)) -> int {
    (4 + entry.0.len()) as int
}

/// Where the value of a line starts.
pub open spec fn value_offset(entry: (Seq<char>, Val)) -> int {
    (4 + entry.0.len() + 2) as int
}

/// Where the value of a line ends.
pub open spec fn value_reach(entry: (Seq<char>, Val)) -> int {
    (4 + entry.0.len() + 2 + text_of(entry.1).len()) as int
}

/// The parts of a line: four spaces, the key, `: `, the value, `,` and a
/// line feed.
pub proof fn line_parts(entry: (Seq<char>, Val))
    ensures
        line_text(entry).len() == value_reach(entry) + 2,
        forall|j: int| 0 <= j < 4 ==> line_text(entry)[j] == ' ',
        line_text(entry).subrange(4, key_reach(entry)) == entry.0,
        line_text(entry)[key_reach(entry)] == ':',
        line_text(entry)[key_reach(entry) + 1] == ' ',
        line_text(entry).subrange(value_offset(entry), value_reach(entry)) == text_of(entry.1),
        line_text(entry)[value_reach(entry)] == ',',
        line_text(entry)[value_reach(entry) + 1] == '\n',
{
    reveal_strlit("    ");
    reveal_strlit(": ");
    reveal_strlit(",\n");
    let line = line_text(entry);
    assert(line.subrange(4, key_reach(entry)) =~= entry.0);
    assert(line.subrange(value_offset(entry), value_reach(entry)) =~= text_of(entry.1));
}

} // verus!
