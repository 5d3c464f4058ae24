//! Equality of values, comparing a value with a boolean or a string, and
//! indexing a value by position or key, with the operators of the language.

use vstd::prelude::*;
use vstd::std_specs::cmp::PartialEqSpecImpl;
use crate::value::{at, at_key, Dict, KeyNode, KeyPath, Val, Value};

verus! {

impl PartialEq<bool> for Value {
    /// Whether the value is this boolean. No other kind of value equals a
    /// boolean.
    fn eq(&self, other: &bool) -> (r: bool) {
        self.eq_bool(*other)
    }
}

impl PartialEqSpecImpl<bool> for Value {
    open spec fn obeys_eq_spec() -> bool {
        true
    }

    open spec fn eq_spec(&self, other: &bool) -> bool {
        self@ == Val::Boolean(*other)
    }
}

impl PartialEq<str> for Value {
    /// Whether the value is this string. No other kind of value equals a
    /// string.
    fn eq(&self, other: &str) -> (r: bool) {
        self.eq_str(other)
    }
}

impl PartialEqSpecImpl<str> for Value {
    open spec fn obeys_eq_spec() -> bool {
        true
    }

    open spec fn eq_spec(&self, other: &str) -> bool {
        self@ == Val::String(other@)
    }
}

impl PartialEq<String> for Value {
    /// Whether the value is this string. No other kind of value equals a
    /// string.
    fn eq(&self, other: &String) -> (r: bool) {
        self.eq_str(other.as_str())
    }
}

impl PartialEqSpecImpl<String> for Value {
    open spec fn obeys_eq_spec() -> bool {
        true
    }

    open spec fn eq_spec(&self, other: &String) -> bool {
        self@ == Val::String(other@)
    }
}

impl std::ops::Index<isize> for Value {
    type Output = Value;

    /// The element at `index`, or `Null`.
    fn index(&self, index: isize) -> (r: &Value)
        ensures
            r@ == at(self@, index as int),
    {
        self.get(index)
    }
}

impl vstd::std_specs::core::IndexSpecImpl<isize> for Value {
    open spec fn index_req(&self, index: &isize) -> bool {
        true
    }
}

impl std::ops::Index<&str> for Value {
    type Output = Value;

    /// The value of `key`, or `Null`.
    fn index(&self, key: &str) -> (r: &Value)
        ensures
            r@ == at_key(self@, key@),
    {
        self.get_key(key)
    }
}

impl vstd::std_specs::core::IndexSpecImpl<&str> for Value {
    open spec fn index_req(&self, key: &&str) -> bool {
        true
    }
}

impl std::ops::Index<String> for Value {
    type Output = Value;

    /// The value of `key`, or `Null`.
    fn index(&self, key: String) -> (r: &Value)
        ensures
            r@ == at_key(self@, key@),
    {
        self.get_key(key.as_str())
    }
}

impl vstd::std_specs::core::IndexSpecImpl<String> for Value {
    open spec fn index_req(&self, key: &String) -> bool {
        true
    }
}

/// Whether two key nodes are the same.
pub fn same_node(a: &KeyNode, b: &KeyNode) -> (r: bool)
    ensures
        r == (a@ == b@),
{
    match (a, b) {
        (KeyNode::Key(x), KeyNode::Key(y)) => *x == *y,
        (KeyNode::Index(x), KeyNode::Index(y)) => *x == *y,
        _ => false,
    }
}

/// Whether two paths are the same, step by step.
pub fn same_path(a: &KeyPath, b: &KeyPath) -> (r: bool)
    ensures
        r == (a@ == b@),
{
    let n: usize = a.0.len();
    if n != b.0.len() {
        assert(a@.len() != b@.len());
        return false;
    }
    let mut i: usize = 0;
    while i < n
        invariant
            i <= n == a.0.len(),
            n == b.0.len(),
            forall|j: int| 0 <= j < i ==> a@[j] == b@[j],
        decreases n - i,
    {
        if !same_node(&a.0[i], &b.0[i]) {
            assert(a@[i as int] != b@[i as int]);
            return false;
        }
        i += 1;
    }
    assert(a@ =~= b@);
    true
}

/// Whether two dictionaries hold the same keys with the same values in the
/// same order.
pub fn same_dict(a: &Dict, b: &Dict) -> (r: bool)
    ensures
        r == (a@ == b@),
    decreases a,
{
    let n: usize = a.len();
    if n != b.len() {
        assert(a@.len() != b@.len());
        return false;
    }
    let mut i: usize = 0;
    while i < n
        invariant
            i <= n == a@.len(),
            n == b@.len(),
            forall|j: int| 0 <= j < i ==> a@[j] == b@[j],
        decreases n - i,
    {
        if !(*a.key_at(i) == *b.key_at(i)) || !a.value_at(i).same(b.value_at(i)) {
            assert(a@[i as int] != b@[i as int]);
            return false;
        }
        i += 1;
    }
    assert(a@ =~= b@);
    true
}

impl Value {
    /// Whether two values are the same: of one kind, with the same content
    /// in the same order.
    pub fn same(&self, other: &Value) -> (r: bool)
        ensures
            r == (self@ == other@),
        decreases self,
    {
        match (self, other) {
            (Value::Null, Value::Null) => true,
            (Value::Boolean(a), Value::Boolean(b)) => *a == *b,
            (Value::Number(a), Value::Number(b)) => *a == *b,
            (Value::Char(a), Value::Char(b)) => *a == *b,
            (Value::String(a), Value::String(b)) => *a == *b,
            (Value::Cite(a), Value::Cite(b)) => same_path(a, b),
            (Value::List(a), Value::List(b)) => {
                let n: usize = a.len();
                if n != b.len() {
                    assert(self@->List_0.len() != other@->List_0.len());
                    return false;
                }
                let mut i: usize = 0;
                while i < n
                    invariant
                        i <= n == a.len(),
                        n == b.len(),
                        *self == Value::List(*a),
                        *other == Value::List(*b),
                        self@ is List,
                        other@ is List,
                        self@->List_0.len() == n,
                        other@->List_0.len() == n,
                        forall|j: int| 0 <= j < n ==> self@->List_0[j] == (#[trigger] a@[j])@,
                        forall|j: int| 0 <= j < n ==> other@->List_0[j] == (#[trigger] b@[j])@,
                        forall|j: int| 0 <= j < i ==> self@->List_0[j] == other@->List_0[j],
                    decreases n - i,
                {
                    if !a[i].same(&b[i]) {
                        assert(a@[i as int]@ != b@[i as int]@);
                        assert(self@->List_0[i as int] != other@->List_0[i as int]);
                        return false;
                    }
                    assert(a@[i as int]@ == b@[i as int]@);
                    i += 1;
                }
                assert(self@->List_0 =~= other@->List_0);
                true
            },
            (Value::Dict(a), Value::Dict(b)) => same_dict(a, b),
            (Value::FreeDict(a), Value::FreeDict(b)) => same_dict(a, b),
            (Value::Record(s, a), Value::Record(t, b)) => *s == *t && a.same(b),
            (Value::Key(s, a), Value::Key(t, b)) => *s == *t && a.same(b),
            (Value::HandlerString(s, a), Value::HandlerString(t, b)) => *s == *t && *a == *b,
            (Value::HandlerNumber(s, a), Value::HandlerNumber(t, b)) => *s == *t && *a == *b,
            (Value::Comment(k, a), Value::Comment(l, b)) => *k == *l && *a == *b,
            (Value::EmptyLine, Value::EmptyLine) => true,
            _ => false,
        }
    }
}

impl PartialEq for Dict {
    /// Whether two dictionaries hold the same keys with the same values in
    /// the same order.
    fn eq(&self, other: &Dict) -> (r: bool) {
        same_dict(self, other)
    }
}

impl PartialEqSpecImpl for Dict {
    open spec fn obeys_eq_spec() -> bool {
        true
    }

    open spec fn eq_spec(&self, other: &Dict) -> bool {
        self@ == other@
    }
}

impl PartialEq for Value {
    /// Whether two values are the same: of one kind, with the same content
    /// in the same order.
    fn eq(&self, other: &Value) -> (r: bool) {
        self.same(other)
    }
}

impl PartialEqSpecImpl for Value {
    open spec fn obeys_eq_spec() -> bool {
        true
    }

    open spec fn eq_spec(&self, other: &Value) -> bool {
        self@ == other@
    }
}

} // verus!
