//! The keys of a dictionary: an `indexmap::IndexSet` of strings, which keeps
//! the keys in the order in which they were first inserted and finds the
//! position of a key without a search through all of them.

use vstd::prelude::*;
use indexmap::IndexSet;

verus! {

/// The set type of the `indexmap` crate. Verus treats it as opaque; what it
/// holds is named by [`key_seq`].
#[verifier::external_type_specification]
#[verifier::external_body]
#[verifier::reject_recursive_types(T)]
#[verifier::reject_recursive_types(S)]
pub struct ExIndexSet<T, S>(IndexSet<T, S>);

/// The keys that a set holds, in insertion order.
pub uninterp spec fn key_seq(s: IndexSet<String>) -> Seq<Seq<char>>;

/// Calls `IndexSet::new`, which creates a set without elements.
#[verifier::external_body]
pub(crate) fn keys_new() -> (s: IndexSet<String>)
    ensures
        key_seq(s) == Seq::<Seq<char>>::empty(),
{
    IndexSet::new()
}

/// Calls `IndexSet::len`, the number of elements.
#[verifier::external_body]
pub(crate) fn keys_len(s: &IndexSet<String>) -> (n: usize)
    ensures
        n == key_seq(*s).len(),
{
    s.len()
}

/// Calls `IndexSet::insert_full`. Where an equal key is in the set already,
/// the set stays as it is and the call returns that key's index and `false`;
/// else the key is added after all others and the call returns its index and
/// `true`.
#[verifier::external_body]
pub(crate) fn keys_insert(s: &mut IndexSet<String>, key: String) -> (r: (usize, bool))
    ensures
        key_seq(*old(s)).contains(key@) ==> key_seq(*final(s)) == key_seq(*old(s)) && !r.1 && r.0
            < key_seq(*old(s)).len() && key_seq(*old(s))[r.0 as int] == key@,
        !key_seq(*old(s)).contains(key@) ==> key_seq(*final(s)) == key_seq(*old(s)).push(key@)
            && r.1 && r.0 == key_seq(*old(s)).len(),
{
    s.insert_full(key)
}

/// Calls `IndexSet::get_index_of`: the index of the key equal to `key`, or
/// `None` where the set holds no such key.
#[verifier::external_body]
pub(crate) fn keys_find(s: &IndexSet<String>, key: &str) -> (r: Option<usize>)
    ensures
        match r {
            Some(i) => i < key_seq(*s).len() && key_seq(*s)[i as int] == key@,
            None => !key_seq(*s).contains(key@),
        },
{
    s.get_index_of(key)
}

/// Calls `IndexSet::get_index`: the key at `index`, or `None` where `index`
/// is not below the number of keys.
#[verifier::external_body]
pub(crate) fn keys_at(s: &IndexSet<String>, index: usize) -> (r: Option<&String>)
    ensures
        match r {
            Some(k) => index < key_seq(*s).len() && k@ == key_seq(*s)[index as int],
            None => index >= key_seq(*s).len(),
        },
{
    s.get_index(index)
}

} // verus!
