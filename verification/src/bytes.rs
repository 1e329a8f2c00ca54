//! Byte strings: the form in which file names reach the library.

use vstd::prelude::*;

verus! {

/// Whether two byte strings hold the same bytes.
pub fn bytes_equal(a: &[u8], b: &[u8]) -> (same: bool)
    ensures
        same == (a@ == b@),
{
    if a.len() != b.len() {
        return false;
    }
    let mut i: usize = 0;
    while i < a.len()
        invariant
            a@.len() == b@.len(),
            i <= a@.len(),
            forall|k: int| 0 <= k < i ==> a@[k] == b@[k],
        decreases a@.len() - i,
    {
        if a[i] != b[i] {
            return false;
        }
        i += 1;
    }
    assert(a@ =~= b@);
    true
}

/// A fresh copy of the bytes from `from` up to, not including, `to`.
pub fn bytes_between(a: &[u8], from: usize, to: usize) -> (part: Vec<u8>)
    requires
        from <= to <= a@.len(),
    ensures
        part@ == a@.subrange(from as int, to as int),
{
    let mut part: Vec<u8> = Vec::new();
    let mut i: usize = from;
    while i < to
        invariant
            from <= i <= to <= a@.len(),
            part@ == a@.subrange(from as int, i as int),
        decreases to - i,
    {
        part.push(a[i]);
        i += 1;
        assert(part@ =~= a@.subrange(from as int, i as int));
    }
    part
}

/// A fresh copy of a byte string.
pub fn bytes_copy(a: &[u8]) -> (copy: Vec<u8>)
    ensures
        copy@ == a@,
{
    let copy = bytes_between(a, 0, a.len());
    assert(a@.subrange(0, a@.len() as int) =~= a@);
    copy
}

} // verus!
