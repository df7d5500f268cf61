//! Byte-level helpers shared by the reply parser and the session: the
//! whitespace class the tolerated grammar uses, and byte-sequence equality.

use vstd::prelude::*;

verus! {

/// Whitespace as the tolerated reply grammar understands it: space, tab,
/// carriage return and line feed.
pub open spec fn is_ws(b: u8) -> bool {
    b == 32 || b == 9 || b == 13 || b == 10
}

/// Executable twin of [`is_ws`].
pub fn is_ws_byte(b: u8) -> (r: bool)
    ensures
        r == is_ws(b),
{
    b == 32 || b == 9 || b == 13 || b == 10
}

/// A copy of a byte string with the same contents.
pub fn clone_bytes(v: &Vec<u8>) -> (o: Vec<u8>)
    ensures
        o@ == v@,
{
    let o = v.clone();
    proof {
        assert(o@ =~= v@);
    }
    o
}

/// Byte-for-byte equality of two byte strings.
pub fn bytes_eq(a: &Vec<u8>, b: &Vec<u8>) -> (r: bool)
    ensures
        r == (a@ == b@),
{
    if a.len() != b.len() {
        return false;
    }
    let mut i: usize = 0;
    while i < a.len()
        invariant
            i <= a.len(),
            a.len() == b.len(),
            forall|j: int| 0 <= j < i ==> a@[j] == b@[j],
        decreases a.len() - i,
    {
        if a[i] != b[i] {
            return false;
        }
        i = i + 1;
    }
    proof {
        assert(a@ =~= b@);
    }
    true
}

} // verus!
