//! Changes to a document at the end of a path: the steps of the path name
//! nested dictionaries, which are made where they are missing.

use vstd::prelude::*;
use crate::chars::to_text;
use crate::display::step_text;
use crate::number::push_int;
use crate::value::{keys_of, lookup, put, vals_of, Dict, KeyNode, PathStep, Val, Value};

verus! {

/// A change to the value at the end of a path.
pub enum Edit {
    /// Give the key this value.
    Put(Value),
    /// Make sure the key holds a dictionary: one that is there stays, and
    /// anything else gives way to an empty one.
    Touch,
    /// Add these values to the list that the key holds; anything else than a
    /// list gives way to an empty one first.
    Append(Vec<Value>),
}

/// The mathematical value of an [`Edit`].
pub enum Change {
    Put(Val),
    Touch,
    Append(Seq<Val>),
}

impl View for Edit {
    type V = Change;

    open spec fn view(&self) -> Change {
        match *self {
            Edit::Put(v) => Change::Put(v@),
            Edit::Touch => Change::Touch,
            Edit::Append(items) => Change::Append(vals_of(items@)),
        }
    }
}

/// The value that a key holds after a change, given what it held before.
pub open spec fn changed(before: Option<Val>, change: Change) -> Val {
    match change {
        Change::Put(v) => v,
        Change::Touch => match before {
            Some(Val::Dict(e)) => Val::Dict(e),
            _ => Val::Dict(Seq::empty()),
        },
        Change::Append(items) => match before {
            Some(Val::List(l)) => Val::List(l + items),
            _ => Val::List(items),
        },
    }
}

/// The entries of the dictionary that a key holds, or none where it holds
/// anything else or nothing.
pub open spec fn inner_entries(before: Option<Val>) -> Seq<(Seq<char>, Val)> {
    match before {
        Some(Val::Dict(e)) => e,
        _ => Seq::empty(),
    }
}

/// The entries after the change is made at the end of `path[from..]`.
///
/// Each step but the last names a dictionary among the entries of the one
/// before; where the key is missing or holds something else, an empty
/// dictionary takes the place. The last step names the key that is changed.
/// A step that is an index names the key written as that number. With no
/// step left, nothing changes.
pub open spec fn set_at(
    entries: Seq<(Seq<char>, Val)>,
    path: Seq<PathStep>,
    from: nat,
    change: Change,
) -> Seq<(Seq<char>, Val)>
    decreases path.len() - from,
{
    if from >= path.len() {
        entries
    } else {
        let key = step_text(path[from as int]);
        if from + 1 == path.len() {
            put(entries, key, changed(lookup(entries, key), change))
        } else {
            put(
                entries,
                key,
                Val::Dict(set_at(inner_entries(lookup(entries, key)), path, from + 1, change)),
            )
        }
    }
}

/// Giving a key a value twice is giving it the second value once.
pub proof fn put_twice(entries: Seq<(Seq<char>, Val)>, key: Seq<char>, a: Val, b: Val)
    requires
        keys_of(entries).no_duplicates(),
    ensures
        put(put(entries, key, a), key, b) == put(entries, key, b),
        keys_of(put(entries, key, a)).no_duplicates(),
{
    let once = put(entries, key, a);
    if keys_of(entries).contains(key) {
        let i = keys_of(entries).index_of(key);
        assert(keys_of(once) =~= keys_of(entries));
        assert(put(once, key, b) =~= put(entries, key, b));
    } else {
        let n = entries.len() as int;
        assert(keys_of(once) =~= keys_of(entries).push(key));
        assert(keys_of(once)[n] == key);
        assert(keys_of(once).no_duplicates()) by {
            assert forall|x: int, y: int|
                0 <= x < keys_of(once).len() && 0 <= y < keys_of(once).len() && x != y implies keys_of(
                once,
            )[x] != keys_of(once)[y] by {
                if x < n {
                    assert(keys_of(entries)[x] == keys_of(once)[x]);
                }
                if y < n {
                    assert(keys_of(entries)[y] == keys_of(once)[y]);
                }
            }
        }
        assert(keys_of(once).index_of(key) == n);
        assert(put(once, key, b) =~= put(entries, key, b));
    }
}

/// The key that a step names in a dictionary.
pub fn step_key(k: &KeyNode) -> (s: String)
    ensures
        s@ == step_text(k@),
{
    match k {
        KeyNode::Key(text) => text.clone(),
        KeyNode::Index(i) => {
            let mut out: Vec<char> = Vec::new();
            push_int(&mut out, *i as i64);
            let s = to_text(&out, 0, out.len());
            assert(out@.subrange(0, out@.len() as int) =~= out@);
            s
        },
    }
}

/// Makes the value that a key holds after the change `edit`, given what it
/// held before.
fn apply(before: Option<Value>, edit: Edit) -> (v: Value)
    ensures
        v@ == changed(
            match before {
                Some(w) => Some(w@),
                None => None,
            },
            edit@,
        ),
{
    match edit {
        Edit::Put(v) => v,
        Edit::Touch => match before {
            Some(Value::Dict(d)) => Value::Dict(d),
            _ => Value::Dict(Dict::new()),
        },
        Edit::Append(mut items) => {
            let ghost b = vals_of(items@);
            match before {
                Some(Value::List(mut l)) => {
                    let ghost a = Value::List(l)@->List_0;
                    assert(a =~= vals_of(l@));
                    l.append(&mut items);
                    let v = Value::List(l);
                    assert(v@->List_0 =~= a + b);
                    v
                },
                _ => {
                    let v = Value::List(items);
                    assert(v@->List_0 =~= b);
                    v
                },
            }
        },
    }
}

/// Makes the change at the end of `path[from..]` in dictionary `d`.
pub fn edit_at(d: &mut Dict, path: &Vec<KeyNode>, from: usize, edit: Edit)
    ensures
        final(d)@ == set_at(old(d)@, crate::value::steps_of(crate::value::KeyPath(*path)), from as nat, edit@),
    decreases path.len() - from,
{
    let ghost steps = crate::value::steps_of(crate::value::KeyPath(*path));
    if from >= path.len() {
        return ;
    }
    let key = step_key(&path[from]);
    assert(key@ == step_text(steps[from as int]));
    let before = d.insert(key.clone(), Value::Null);
    let after = if from + 1 == path.len() {
        apply(before, edit)
    } else {
        let mut inner = match before {
            Some(Value::Dict(inner)) => inner,
            _ => Dict::new(),
        };
        edit_at(&mut inner, path, from + 1, edit);
        Value::Dict(inner)
    };
    let _ = d.insert(key, after);
    proof {
        put_twice(old(d)@, key@, Val::Null, after@);
    }
}

} // verus!
