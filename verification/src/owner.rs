//! Owners of tables and singletons.

use vstd::prelude::*;

verus! {

/// Identifies the part of a program which may change a table or singleton.
pub type Owner = &'static str;

/// Whether `owner` is the owner `expected`.
pub fn is_owner(expected: Owner, owner: Owner) -> (r: bool)
    ensures
        r <==> owner@ == expected@,
{
    let a = expected.as_bytes();
    let b = owner.as_bytes();
    if a.len() != b.len() {
        return false;
    }
    let mut n: usize = 0;
    while n < a.len()
        invariant
            n <= a.len(),
            a@.len() == b@.len(),
            a@ == vstd::utf8::encode_utf8(expected@),
            b@ == vstd::utf8::encode_utf8(owner@),
            a@.take(n as int) == b@.take(n as int),
        decreases a.len() - n,
    {
        if a[n] != b[n] {
            return false;
        }
        n += 1;
        assert(a@.take(n as int) =~= a@.take(n - 1).push(a@[n - 1]));
        assert(b@.take(n as int) =~= b@.take(n - 1).push(b@[n - 1]));
    }
    assert(a@ =~= a@.take(n as int));
    assert(b@ =~= b@.take(n as int));
    proof {
        vstd::utf8::encode_utf8_decode_utf8(expected@);
        vstd::utf8::encode_utf8_decode_utf8(owner@);
    }
    true
}

/// Check that `owner` is the owner `expected`.
pub fn assert_is_owner(expected: Owner, owner: Owner)
    requires
        owner@ == expected@,
    ensures
        owner@ == expected@,
{
    if !is_owner(expected, owner) {
        vstd::pervasive::unreached::<()>()
    }
}

} // verus!
