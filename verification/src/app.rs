//! Rules of the application that are no part of a window.

use vstd::prelude::*;
use vstd::string::*;

verus! {

/// Whether `c` is numeric as Unicode has it: a digit, a letter number or
/// another number.
pub uninterp spec fn is_numeric_char(c: char) -> bool;

/// Whether `c` is white space as Unicode has it.
pub uninterp spec fn is_whitespace_char(c: char) -> bool;

/// `char::is_numeric`: the answer is that of the Unicode tables for this
/// character.
#[verifier::external_body]
fn is_numeric(c: char) -> (r: bool)
    ensures
        r == is_numeric_char(c),
{
    c.is_numeric()
}

/// `char::is_whitespace`: the answer is that of the Unicode tables for this
/// character.
#[verifier::external_body]
fn is_whitespace(c: char) -> (r: bool)
    ensures
        r == is_whitespace_char(c),
{
    c.is_whitespace()
}

/// A name can stand for a class or a field: it is not empty, does not begin
/// with a numeric character and holds no white space.
pub open spec fn valid_ident(name: Seq<char>) -> bool {
    &&& name.len() > 0
    &&& !is_numeric_char(name[0])
    &&& forall|i: int| 0 <= i < name.len() ==> !is_whitespace_char(#[trigger] name[i])
}

/// Whether `name` can stand for a class or a field.
pub fn is_valid_ident(name: &str) -> (valid: bool)
    ensures
        valid == valid_ident(name@),
{
    let len: usize = name.unicode_len();
    if len == 0 {
        return false;
    }
    if is_numeric(name.get_char(0)) {
        return false;
    }
    let mut i: usize = 0;
    while i < len
        invariant
            i <= len,
            len == name@.len(),
            forall|k: int| 0 <= k < i ==> !is_whitespace_char(#[trigger] name@[k]),
        decreases len - i,
    {
        if is_whitespace(name.get_char(i)) {
            return false;
        }
        i += 1;
    }
    true
}

} // verus!
