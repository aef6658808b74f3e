//! Small verified helpers on byte slices: equality, copying, and reading a
//! little-endian 64-bit integer at a fixed offset.

use vstd::prelude::*;

verus! {

/// The value of an 8-byte little-endian sequence.
pub open spec fn le64(s: Seq<u8>) -> int {
    s[0] + 0x100 * (s[1] + 0x100 * (s[2] + 0x100 * (s[3] + 0x100 * (s[4] + 0x100 * (s[5]
        + 0x100 * (s[6] + 0x100 * s[7]))))))
}

/// Byte-for-byte equality of two slices.
pub fn bytes_eq(a: &[u8], b: &[u8]) -> (r: bool)
    ensures
        r <==> a@ == b@,
{
    if a.len() != b.len() {
        return false;
    }
    let mut i: usize = 0;
    while i < a.len()
        invariant
            0 <= i <= a@.len(),
            a@.len() == b@.len(),
            forall|j: int| 0 <= j < i ==> a@[j] == b@[j],
        decreases a@.len() - i,
    {
        if a[i] != b[i] {
            return false;
        }
        i = i + 1;
    }
    proof {
        assert(a@ =~= b@);
    }
    true
}

/// A fresh vector holding the same bytes as the slice.
pub fn copy_bytes(data: &[u8]) -> (r: Vec<u8>)
    ensures
        r@ == data@,
{
    let mut r: Vec<u8> = Vec::new();
    let mut i: usize = 0;
    while i < data.len()
        invariant
            0 <= i <= data@.len(),
            r@.len() == i,
            forall|j: int| 0 <= j < i ==> r@[j] == data@[j],
        decreases data@.len() - i,
    {
        r.push(data[i]);
        i = i + 1;
    }
    proof {
        assert(r@ =~= data@);
    }
    r
}

/// A fresh vector holding `data[off .. off + n]`.
pub fn copy_range(data: &[u8], off: usize, n: usize) -> (r: Vec<u8>)
    requires
        off + n <= data@.len(),
    ensures
        r@ == data@.subrange(off as int, off + n),
{
    let mut r: Vec<u8> = Vec::new();
    let mut i: usize = 0;
    let len = data.len();
    while i < n
        invariant
            0 <= i <= n,
            off + n <= len,
            len == data@.len(),
            r@.len() == i,
            forall|j: int| 0 <= j < i ==> r@[j] == data@[off + j],
        decreases n - i,
    {
        r.push(data[off + i]);
        i = i + 1;
    }
    proof {
        assert(r@ =~= data@.subrange(off as int, off + n));
    }
    r
}

/// Reads the little-endian 64-bit integer at offset `off`.
pub fn read_u64_le(data: &[u8], off: usize) -> (v: u64)
    requires
        off + 8 <= data@.len(),
    ensures
        v == le64(data@.subrange(off as int, off + 8)),
{
    let b0 = data[off] as u64;
    let b1 = data[off + 1] as u64;
    let b2 = data[off + 2] as u64;
    let b3 = data[off + 3] as u64;
    let b4 = data[off + 4] as u64;
    let b5 = data[off + 5] as u64;
    let b6 = data[off + 6] as u64;
    let b7 = data[off + 7] as u64;
    let v = b0 + 0x100 * (b1 + 0x100 * (b2 + 0x100 * (b3 + 0x100 * (b4 + 0x100 * (b5 + 0x100 * (b6
        + 0x100 * b7))))));
    proof {
        let s = data@.subrange(off as int, off + 8);
        assert(s[0] == data@[off as int]);
        assert(s[1] == data@[off + 1]);
        assert(s[2] == data@[off + 2]);
        assert(s[3] == data@[off + 3]);
        assert(s[4] == data@[off + 4]);
        assert(s[5] == data@[off + 5]);
        assert(s[6] == data@[off + 6]);
        assert(s[7] == data@[off + 7]);
    }
    v
}

} // verus!
