//! The document model: a JSON value whose parts the selectors read.
use vstd::prelude::*;

verus! {

/// A JSON value. Selectors never look inside numbers: an integer is kept
/// as its value, and any other number as its text. An object keeps its
/// members in insertion order; its keys are expected to be distinct, and a
/// lookup by key finds the first member with that key.
#[derive(Debug, PartialEq)]
pub enum Json {
    Null,
    Bool(bool),
    Number(i128),
    Real(String),
    Str(String),
    Array(Vec<Json>),
    Object(Vec<(String, Json)>),
}

/// The values that a sequence of references points to.
pub open spec fn deref_all(s: Seq<&Json>) -> Seq<Json> {
    s.map_values(|r: &Json| *r)
}

/// Relies on String::push: appends one character.
#[verifier::external_body]
pub(crate) fn push_char(s: &mut String, c: char)
    ensures
        final(s)@ == old(s)@.push(c),
{
    s.push(c)
}

/// The characters of a string slice, in order.
pub fn chars_of(s: &str) -> (r: Vec<char>)
    ensures
        r@ == s@,
{
    let mut v: Vec<char> = Vec::new();
    for c in it: s.chars()
        invariant
            v@ == it.history(),
    {
        v.push(c);
    }
    v
}

} // verus!
