//! Characters and text: the Unicode classes the grammar needs, and the
//! conversions between strings and vectors of characters.

use vstd::prelude::*;

verus! {

/// Whether a character has the Unicode property `XID_Start`.
pub uninterp spec fn xid_start(c: char) -> bool;

/// Whether a character has the Unicode property `XID_Continue`.
pub uninterp spec fn xid_continue(c: char) -> bool;

/// Whether a character is in the Unicode general category `Space_Separator`.
pub uninterp spec fn space_separator(c: char) -> bool;

/// Calls `pest::unicode::XID_START`, a lookup in a fixed table: the result
/// depends on the character alone and is named [`xid_start`].
#[verifier::external_body]
pub(crate) fn is_xid_start(c: char) -> (r: bool)
    ensures
        r == xid_start(c),
{
    pest::unicode::XID_START(c)
}

/// Calls `pest::unicode::XID_CONTINUE`, a lookup in a fixed table: the result
/// depends on the character alone and is named [`xid_continue`].
#[verifier::external_body]
pub(crate) fn is_xid_continue(c: char) -> (r: bool)
    ensures
        r == xid_continue(c),
{
    pest::unicode::XID_CONTINUE(c)
}

/// Calls `pest::unicode::SPACE_SEPARATOR`, a lookup in a fixed table: the
/// result depends on the character alone and is named [`space_separator`].
#[verifier::external_body]
pub(crate) fn is_space_separator(c: char) -> (r: bool)
    ensures
        r == space_separator(c),
{
    pest::unicode::SPACE_SEPARATOR(c)
}

/// `String::push` appends one character.
pub assume_specification[ std::string::String::push ](s: &mut std::string::String, c: char)
    ensures
        final(s)@ == old(s)@.push(c),
;

/// The characters of a string, in order.
pub fn to_chars(s: &str) -> (v: Vec<char>)
    ensures
        v@ == s@,
{
    let mut v: Vec<char> = Vec::new();
    for c in it: s.chars()
        invariant
            it.seq() == s@,
            v@ == s@.take(it.index() as int),
    {
        v.push(c);
    }
    v
}

/// The string made of the characters `v[from..to]`.
pub fn to_text(v: &Vec<char>, from: usize, to: usize) -> (s: String)
    requires
        from <= to <= v.len(),
    ensures
        s@ == v@.subrange(from as int, to as int),
{
    let mut s = String::new();
    let mut i: usize = from;
    while i < to
        invariant
            from <= i <= to <= v.len(),
            s@ == v@.subrange(from as int, i as int),
        decreases to - i,
    {
        s.push(v[i]);
        i += 1;
        assert(s@ =~= v@.subrange(from as int, i as int));
    }
    s
}

} // verus!
