//! The document model: values, dictionaries and key paths.

use vstd::prelude::*;
use crate::keys::{key_seq, keys_at, keys_find, keys_insert, keys_len, keys_new};
use crate::number::Number;

verus! {

/// One step of a path: a key of a dictionary or a position in a list.
#[derive(Clone, Debug, PartialEq, Eq)]
pub enum KeyNode {
    /// A key of a dictionary.
    Key(String),
    /// A position in a list.
    Index(isize),
}

/// A path through a document, step by step from the root.
#[derive(Clone, Debug, PartialEq, Eq)]
pub struct KeyPath(pub Vec<KeyNode>);

/// The mathematical value of a [`KeyNode`].
pub enum PathStep {
    Key(Seq<char>),
    Index(isize),
}

/// The kind of a comment.
#[derive(Clone, Copy, Debug, PartialEq, Eq, Structural)]
pub enum CommentKind {
    /// From `//` to the end of the line.
    Line,
    /// Between `/*` and `*/`.
    Block,
}

/// A dictionary: string keys, each once, in the order of their first
/// insertion, and a value for each.
#[derive(Debug)]
pub struct Dict {
    keys: indexmap::IndexSet<String>,
    values: Vec<Value>,
}

/// A node of a document.
#[derive(Debug)]
pub enum Value {
    /// No value.
    Null,
    /// `true` or `false`.
    Boolean(bool),
    /// A number.
    Number(Number),
    /// One character.
    Char(char),
    /// A text.
    String(String),
    /// A reference to another place of the document, kept as its path.
    Cite(KeyPath),
    /// Values in their order.
    List(Vec<Value>),
    /// A dictionary.
    Dict(Dict),
    /// The dictionary of a document that starts with pairs under no header.
    FreeDict(Dict),
    /// A value with the name of what is to handle it.
    Record(String, Box<Value>),
    /// A key with the name of what is to handle it.
    Key(String, Box<Value>),
    /// A text with the tag that stands before its literal.
    HandlerString(String, String),
    /// A number with the tag that stands behind its literal.
    HandlerNumber(String, Number),
    /// A comment.
    Comment(CommentKind, String),
    /// A blank line.
    EmptyLine,
}

/// The mathematical value of a [`Value`]: text is a sequence of characters,
/// a list a sequence of values, a dictionary a sequence of entries.
pub enum Val {
    Null,
    Boolean(bool),
    Number(Number),
    Char(char),
    String(Seq<char>),
    Cite(Seq<PathStep>),
    List(Seq<Val>),
    Dict(Seq<(Seq<char>, Val)>),
    FreeDict(Seq<(Seq<char>, Val)>),
    Record(Seq<char>, Box<Val>),
    Key(Seq<char>, Box<Val>),
    HandlerString(Seq<char>, Seq<char>),
    HandlerNumber(Seq<char>, Number),
    Comment(CommentKind, Seq<char>),
    EmptyLine,
}

/// The step that a key node stands for.
pub open spec fn step_of(k: KeyNode) -> PathStep {
    match k {
        KeyNode::Key(s) => PathStep::Key(s@),
        KeyNode::Index(i) => PathStep::Index(i),
    }
}

/// The steps that a path stands for.
pub open spec fn steps_of(p: KeyPath) -> Seq<PathStep> {
    Seq::new(p.0@.len(), |i: int| step_of(p.0@[i]))
}

/// The entries that a dictionary stands for.
pub closed spec fn entries_of(d: Dict) -> Seq<(Seq<char>, Val)>
    decreases d,
{
    Seq::new(
        d.values@.len(),
        |i: int|
            if 0 <= i < d.values@.len() {
                (key_seq(d.keys)[i], val_of(d.values@[i]))
            } else {
                arbitrary()
            },
    )
}

/// The value that a document node stands for.
pub open spec fn val_of(v: Value) -> Val
    decreases v,
{
    match v {
        Value::Null => Val::Null,
        Value::Boolean(b) => Val::Boolean(b),
        Value::Number(n) => Val::Number(n),
        Value::Char(c) => Val::Char(c),
        Value::String(s) => Val::String(s@),
        Value::Cite(p) => Val::Cite(steps_of(p)),
        Value::List(items) => Val::List(
            Seq::new(
                items@.len(),
                |i: int|
                    if 0 <= i < items@.len() {
                        val_of(items@[i])
                    } else {
                        arbitrary()
                    },
            ),
        ),
        Value::Dict(d) => Val::Dict(entries_of(d)),
        Value::FreeDict(d) => Val::FreeDict(entries_of(d)),
        Value::Record(tag, inner) => Val::Record(tag@, Box::new(val_of(*inner))),
        Value::Key(tag, inner) => Val::Key(tag@, Box::new(val_of(*inner))),
        Value::HandlerString(tag, text) => Val::HandlerString(tag@, text@),
        Value::HandlerNumber(tag, n) => Val::HandlerNumber(tag@, n),
        Value::Comment(kind, text) => Val::Comment(kind, text@),
        Value::EmptyLine => Val::EmptyLine,
    }
}

/// The values that a list of nodes stands for.
pub open spec fn vals_of(items: Seq<Value>) -> Seq<Val> {
    Seq::new(items.len(), |i: int| val_of(items[i]))
}

impl View for KeyNode {
    type V = PathStep;

    open spec fn view(&self) -> PathStep {
        step_of(*self)
    }
}

impl View for KeyPath {
    type V = Seq<PathStep>;

    open spec fn view(&self) -> Seq<PathStep> {
        steps_of(*self)
    }
}

impl View for Dict {
    type V = Seq<(Seq<char>, Val)>;

    open spec fn view(&self) -> Seq<(Seq<char>, Val)> {
        entries_of(*self)
    }
}

impl View for Value {
    type V = Val;

    open spec fn view(&self) -> Val {
        val_of(*self)
    }
}

/// The keys of a sequence of entries.
pub open spec fn keys_of(entries: Seq<(Seq<char>, Val)>) -> Seq<Seq<char>> {
    Seq::new(entries.len(), |i: int| entries[i].0)
}

/// The entries after `key` is given the value `v`: the entry of `key` keeps
/// its place and takes the new value, and a key that was not there comes
/// last.
pub open spec fn put(entries: Seq<(Seq<char>, Val)>, key: Seq<char>, v: Val) -> Seq<
    (Seq<char>, Val),
> {
    if keys_of(entries).contains(key) {
        entries.update(keys_of(entries).index_of(key), (key, v))
    } else {
        entries.push((key, v))
    }
}

/// The value that `entries` give to `key`, if any.
pub open spec fn lookup(entries: Seq<(Seq<char>, Val)>, key: Seq<char>) -> Option<Val> {
    if keys_of(entries).contains(key) {
        Some(entries[keys_of(entries).index_of(key)].1)
    } else {
        None
    }
}

/// Gives `key` the value `v` in a dictionary held as its keys and its
/// values.
fn put_entry(
    keys: &mut indexmap::IndexSet<String>,
    values: &mut Vec<Value>,
    key: String,
    v: Value,
) -> (r: Option<Value>)
    requires
        key_seq(*old(keys)).len() == old(values)@.len(),
        key_seq(*old(keys)).no_duplicates(),
    ensures
        key_seq(*final(keys)).len() == final(values)@.len(),
        key_seq(*final(keys)).no_duplicates(),
        key_seq(*old(keys)).contains(key@) ==> key_seq(*final(keys)) == key_seq(*old(keys))
            && final(values)@ == old(values)@.update(key_seq(*old(keys)).index_of(key@), v)
            && r == Some(old(values)@[key_seq(*old(keys)).index_of(key@)]),
        !key_seq(*old(keys)).contains(key@) ==> key_seq(*final(keys)) == key_seq(*old(keys)).push(
            key@,
        ) && final(values)@ == old(values)@.push(v) && r is None,
{
    let ghost k = key@;
    let (i, fresh) = keys_insert(keys, key);
    if fresh {
        values.push(v);
        assert(key_seq(*keys).no_duplicates()) by {
            assert forall|a: int, b: int|
                0 <= a < key_seq(*keys).len() && 0 <= b < key_seq(*keys).len() && a
                    != b implies key_seq(*keys)[a] != key_seq(*keys)[b] by {
                if a < key_seq(*old(keys)).len() {
                    assert(key_seq(*old(keys)).contains(key_seq(*keys)[a]));
                }
                if b < key_seq(*old(keys)).len() {
                    assert(key_seq(*old(keys)).contains(key_seq(*keys)[b]));
                }
            }
        }
        None
    } else {
        assert(key_seq(*old(keys)).index_of(k) == i as int);
        values.push(v);
        let old_value = values.swap_remove(i);
        assert(values@ =~= old(values)@.update(i as int, v));
        Some(old_value)
    }
}

impl Dict {
    #[verifier::type_invariant]
    spec fn inv(self) -> bool {
        key_seq(self.keys).len() == self.values@.len() && key_seq(self.keys).no_duplicates()
    }

    /// A dictionary without entries.
    pub fn new() -> (d: Dict)
        ensures
            d@ == Seq::<(Seq<char>, Val)>::empty(),
    {
        let d = Dict { keys: keys_new(), values: Vec::new() };
        assert(d@ =~= Seq::<(Seq<char>, Val)>::empty());
        d
    }

    /// The number of entries. (No key occurs twice among them.)
    pub fn len(&self) -> (n: usize)
        ensures
            n == self@.len(),
            keys_of(self@).no_duplicates(),
    {
        proof {
            use_type_invariant(self);
            assert(keys_of(self@) =~= key_seq(self.keys));
        }
        keys_len(&self.keys)
    }

    /// The key of entry `i`.
    pub fn key_at(&self, i: usize) -> (k: &String)
        requires
            i < self@.len(),
        ensures
            k@ == self@[i as int].0,
    {
        proof {
            use_type_invariant(self);
        }
        keys_at(&self.keys, i).unwrap()
    }

    /// The value of entry `i`.
    pub fn value_at(&self, i: usize) -> (v: &Value)
        requires
            i < self@.len(),
        ensures
            v@ == self@[i as int].1,
            decreases_to!(*self => *v),
    {
        &self.values[i]
    }

    /// The position of the entry of `key`, if there is one.
    pub fn find(&self, key: &str) -> (r: Option<usize>)
        ensures
            keys_of(self@).no_duplicates(),
            match r {
                Some(i) => keys_of(self@).contains(key@) && i == keys_of(self@).index_of(key@),
                None => !keys_of(self@).contains(key@),
            },
    {
        proof {
            use_type_invariant(self);
            assert(keys_of(self@) =~= key_seq(self.keys));
        }
        keys_find(&self.keys, key)
    }

    /// The value of `key`, if it has one.
    pub fn get(&self, key: &str) -> (r: Option<&Value>)
        ensures
            match r {
                Some(v) => lookup(self@, key@) == Some(v@) && decreases_to!(*self => *v),
                None => lookup(self@, key@) is None,
            },
    {
        match self.find(key) {
            Some(i) => Some(self.value_at(i)),
            None => None,
        }
    }

    /// Gives `key` the value `v`. The entry of a key that was there keeps
    /// its place, and the call returns the value it had; a new key comes
    /// last.
    pub fn insert(&mut self, key: String, v: Value) -> (r: Option<Value>)
        ensures
            final(self)@ == put(old(self)@, key@, v@),
            keys_of(old(self)@).no_duplicates(),
            match r {
                Some(w) => lookup(old(self)@, key@) == Some(w@),
                None => lookup(old(self)@, key@) is None,
            },
    {
        proof {
            use_type_invariant(&*self);
            assert(keys_of(self@) =~= key_seq(self.keys));
        }
        let mut taken = Dict::new();
        std::mem::swap(self, &mut taken);
        let Dict { mut keys, mut values } = taken;
        let r = put_entry(&mut keys, &mut values, key, v);
        *self = Dict { keys, values };
        proof {
            assert(self@ =~= put(old(self)@, key@, v@));
        }
        r
    }
}

/// What indexing `v` by position `index` gives: counted from the front where
/// `index` is zero or more, from the end where it is negative, and `Null`
/// where `v` is no list or has no such element.
pub open spec fn at(v: Val, index: int) -> Val {
    match v {
        Val::List(items) => if 0 <= index < items.len() {
            items[index]
        } else if -items.len() <= index < 0 {
            items[items.len() + index]
        } else {
            Val::Null
        },
        _ => Val::Null,
    }
}

/// What indexing `v` by `key` gives: the value of that key where `v` is a
/// dictionary that holds it, and `Null` otherwise.
pub open spec fn at_key(v: Val, key: Seq<char>) -> Val {
    match v {
        Val::Dict(entries) | Val::FreeDict(entries) => match lookup(entries, key) {
            Some(w) => w,
            None => Val::Null,
        },
        _ => Val::Null,
    }
}

impl Value {
    /// The element at `index`, where `self` is a list that has one.
    pub fn try_get(&self, index: isize) -> (r: Option<&Value>)
        ensures
            match r {
                Some(v) => self@ is List && (0 <= index < self@->List_0.len() || -self@->List_0.len()
                    <= index < 0) && v@ == at(self@, index as int),
                None => !(self@ is List && (0 <= index < self@->List_0.len()
                    || -self@->List_0.len() <= index < 0)),
            },
    {
        match self {
            Value::List(items) => {
                let n: usize = items.len();
                if index >= 0 {
                    let i: usize = index as usize;
                    if i < n {
                        Some(&items[i])
                    } else {
                        None
                    }
                } else {
                    let back: usize = (-(index + 1)) as usize;
                    if back < n {
                        Some(&items[n - 1 - back])
                    } else {
                        None
                    }
                }
            },
            _ => None,
        }
    }

    /// The element at `index`, or `Null`. A negative index counts from the
    /// end: `-1` is the last element.
    pub fn get(&self, index: isize) -> (r: &Value)
        ensures
            r@ == at(self@, index as int),
    {
        match self.try_get(index) {
            Some(v) => v,
            None => &Value::Null,
        }
    }

    /// The value of `key`, where `self` is a dictionary that holds it.
    pub fn try_get_key(&self, key: &str) -> (r: Option<&Value>)
        ensures
            match r {
                Some(v) => (self@ is Dict || self@ is FreeDict) && v@ == at_key(self@, key@) && (
                self@ matches Val::Dict(e) ==> lookup(e, key@) is Some) && (self@ matches Val::FreeDict(e)
                    ==> lookup(e, key@) is Some),
                None => (self@ matches Val::Dict(e) ==> lookup(e, key@) is None) && (
                self@ matches Val::FreeDict(e) ==> lookup(e, key@) is None),
            },
    {
        match self {
            Value::Dict(d) => d.get(key),
            Value::FreeDict(d) => d.get(key),
            _ => None,
        }
    }

    /// The value of `key`, or `Null`.
    pub fn get_key(&self, key: &str) -> (r: &Value)
        ensures
            r@ == at_key(self@, key@),
    {
        match self.try_get_key(key) {
            Some(v) => v,
            None => &Value::Null,
        }
    }

    /// Whether `self` is the boolean `b`. No other kind of value equals a
    /// boolean.
    pub fn eq_bool(&self, b: bool) -> (r: bool)
        ensures
            r == (self@ == Val::Boolean(b)),
    {
        match self {
            Value::Boolean(x) => *x == b,
            _ => false,
        }
    }

    /// Whether `self` is the string `s`. No other kind of value equals a
    /// string.
    pub fn eq_str(&self, s: &str) -> (r: bool)
        ensures
            r == (self@ == Val::String(s@)),
    {
        match self {
            Value::String(x) => {
                let other: String = s.to_owned();
                *x == other
            },
            _ => false,
        }
    }
}

impl Default for KeyPath {
    /// The path without steps.
    fn default() -> (p: KeyPath)
        ensures
            p@ == Seq::<PathStep>::empty(),
    {
        let p = KeyPath(Vec::new());
        assert(p@ =~= Seq::<PathStep>::empty());
        p
    }
}

/// A dictionary whose keys differ holds, after its entries are put into
/// the first `n` of them one by one, those `n` and its first `n + 1` after
/// the next is put.
pub proof fn put_next(entries: Seq<(Seq<char>, Val)>, n: int)
    requires
        0 <= n < entries.len(),
        keys_of(entries).no_duplicates(),
    ensures
        put(entries.take(n), entries[n].0, entries[n].1) == entries.take(n + 1),
{
    let head = entries.take(n);
    if keys_of(head).contains(entries[n].0) {
        let i = keys_of(head).index_of(entries[n].0);
        assert(keys_of(entries)[i] == keys_of(entries)[n]);
    }
    assert(head.push(entries[n]) =~= entries.take(n + 1));
}

impl Dict {
    /// A copy of the dictionary.
    pub fn copy(&self) -> (d: Dict)
        ensures
            d@ == self@,
    {
        let n: usize = self.len();
        let mut d = Dict::new();
        let mut i: usize = 0;
        assert(self@.take(0) =~= Seq::<(Seq<char>, Val)>::empty());
        while i < n
            invariant
                i <= n == self@.len(),
                keys_of(self@).no_duplicates(),
                d@ == self@.take(i as int),
            decreases n - i,
        {
            let v = self.value_at(i).copy();
            proof {
                put_next(self@, i as int);
            }
            let _ = d.insert(self.key_at(i).clone(), v);
            i += 1;
        }
        assert(self@.take(n as int) =~= self@);
        d
    }
}

impl Value {
    /// A copy of the value.
    pub fn copy(&self) -> (v: Value)
        ensures
            v@ == self@,
        decreases self,
    {
        match self {
            Value::Null => Value::Null,
            Value::Boolean(b) => Value::Boolean(*b),
            Value::Number(n) => Value::Number(*n),
            Value::Char(c) => Value::Char(*c),
            Value::String(s) => Value::String(s.clone()),
            Value::Cite(p) => {
                let mut steps: Vec<KeyNode> = Vec::new();
                let mut i: usize = 0;
                assert(steps_of(KeyPath(steps)) =~= steps_of(*p).take(0));
                while i < p.0.len()
                    invariant
                        i <= p.0.len(),
                        steps_of(KeyPath(steps)) == steps_of(*p).take(i as int),
                    decreases p.0.len() - i,
                {
                    let ghost before = steps_of(KeyPath(steps));
                    let k = match &p.0[i] {
                        KeyNode::Key(s) => KeyNode::Key(s.clone()),
                        KeyNode::Index(x) => KeyNode::Index(*x),
                    };
                    steps.push(k);
                    i += 1;
                    assert(steps_of(KeyPath(steps)) =~= before.push(step_of(k)));
                    assert(before.push(step_of(k)) =~= steps_of(*p).take(i as int));
                }
                assert(steps_of(*p).take(p.0.len() as int) =~= steps_of(*p));
                Value::Cite(KeyPath(steps))
            },
            Value::List(items) => {
                let mut out: Vec<Value> = Vec::new();
                let n: usize = items.len();
                let mut i: usize = 0;
                assert(vals_of(out@) =~= vals_of(items@).take(0));
                while i < n
                    invariant
                        i <= n == items.len(),
                        *self == Value::List(*items),
                        self@ is List,
                        vals_of(out@) == vals_of(items@).take(i as int),
                    decreases n - i,
                {
                    let ghost before = vals_of(out@);
                    let v = items[i].copy();
                    out.push(v);
                    i += 1;
                    assert(vals_of(out@) =~= before.push(v@));
                    assert(before.push(v@) =~= vals_of(items@).take(i as int));
                }
                let v = Value::List(out);
                assert(vals_of(items@).take(items.len() as int) =~= vals_of(items@));
                assert(self@->List_0 =~= vals_of(items@));
                assert(v@->List_0 =~= vals_of(out@));
                v
            },
            Value::Dict(d) => {
                let n: usize = d.len();
                let mut c = Dict::new();
                let mut i: usize = 0;
                assert(d@.take(0) =~= Seq::<(Seq<char>, Val)>::empty());
                while i < n
                    invariant
                        i <= n == d@.len(),
                        *self == Value::Dict(*d),
                        self@ == Val::Dict(d@),
                        keys_of(d@).no_duplicates(),
                        c@ == d@.take(i as int),
                    decreases n - i,
                {
                    let v = d.value_at(i).copy();
                    proof {
                        put_next(d@, i as int);
                    }
                    let _ = c.insert(d.key_at(i).clone(), v);
                    i += 1;
                }
                assert(d@.take(n as int) =~= d@);
                Value::Dict(c)
            },
            Value::FreeDict(d) => {
                let n: usize = d.len();
                let mut c = Dict::new();
                let mut i: usize = 0;
                assert(d@.take(0) =~= Seq::<(Seq<char>, Val)>::empty());
                while i < n
                    invariant
                        i <= n == d@.len(),
                        *self == Value::FreeDict(*d),
                        self@ == Val::FreeDict(d@),
                        keys_of(d@).no_duplicates(),
                        c@ == d@.take(i as int),
                    decreases n - i,
                {
                    let v = d.value_at(i).copy();
                    proof {
                        put_next(d@, i as int);
                    }
                    let _ = c.insert(d.key_at(i).clone(), v);
                    i += 1;
                }
                assert(d@.take(n as int) =~= d@);
                Value::FreeDict(c)
            },
            Value::Record(tag, inner) => {
                let c = inner.copy();
                Value::Record(tag.clone(), Box::new(c))
            },
            Value::Key(tag, inner) => {
                let c = inner.copy();
                Value::Key(tag.clone(), Box::new(c))
            },
            Value::HandlerString(tag, text) => Value::HandlerString(tag.clone(), text.clone()),
            Value::HandlerNumber(tag, n) => Value::HandlerNumber(tag.clone(), *n),
            Value::Comment(kind, text) => Value::Comment(*kind, text.clone()),
            Value::EmptyLine => Value::EmptyLine,
        }
    }
}

impl Clone for Dict {
    fn clone(&self) -> (d: Dict)
        ensures
            d@ == self@,
    {
        self.copy()
    }
}

impl Clone for Value {
    fn clone(&self) -> (v: Value)
        ensures
            v@ == self@,
    {
        self.copy()
    }
}

/// In a list of `n` elements, `-1` names the element that `n - 1` names,
/// and neither `n` nor `-(n + 1)` names an element: both give `Null`.
pub proof fn negative_index_law(items: Seq<Val>)
    ensures
        items.len() > 0 ==> at(Val::List(items), -1) == at(Val::List(items), items.len() - 1),
        at(Val::List(items), items.len() as int) == Val::Null,
        at(Val::List(items), -(items.len() + 1)) == Val::Null,
        forall|i: int|
            -items.len() <= i < 0 ==> #[trigger] at(Val::List(items), i) == at(
                Val::List(items),
                items.len() + i,
            ),
{
}


} // verus!
