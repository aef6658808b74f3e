//! The two-input hash that combines sibling subtrees in the accumulator, and
//! the chain of "empty subtree" constants derived from it.
//!
//! The hash itself is an outside primitive; its result is only named, never
//! spelled out, so every contract above it speaks of `combine_of` exactly.

use sha2::Digest;
use vstd::prelude::*;

verus! {

/// The digest that the combine step produces for a given pair of inputs.
pub uninterp spec fn combine_of(left: Seq<u8>, right: Seq<u8>) -> Seq<u8>;

/// Relies on sha2::Sha256: the digest of the concatenation of the two inputs
/// is a pure function of those bytes alone and is 32 bytes long.
#[verifier::external_body]
pub(crate) fn combine(left: &Vec<u8>, right: &Vec<u8>) -> (h: Vec<u8>)
    ensures
        h@ == combine_of(left@, right@),
        h@.len() == 32,
{
    let mut hasher = sha2::Sha256::new();
    hasher.update(left.as_slice());
    hasher.update(right.as_slice());
    hasher.finalize().to_vec()
}

/// The all-zero 32-byte leaf value.
pub open spec fn zero_leaf() -> Seq<u8> {
    Seq::new(32, |i: int| 0u8)
}

/// The hash of an empty subtree of the given height: zero bytes at height 0,
/// and the combination of two empty subtrees one level down otherwise.
pub open spec fn empty_subtree(level: nat) -> Seq<u8>
    decreases level,
{
    if level == 0 {
        zero_leaf()
    } else {
        combine_of(empty_subtree((level - 1) as nat), empty_subtree((level - 1) as nat))
    }
}

/// The 32-byte all-zero vector.
pub fn make_zero_leaf() -> (z: Vec<u8>)
    ensures
        z@ == zero_leaf(),
        z@.len() == 32,
{
    let mut z: Vec<u8> = Vec::new();
    let mut i: usize = 0;
    while i < 32
        invariant
            0 <= i <= 32,
            z@.len() == i,
            forall|j: int| 0 <= j < i ==> z@[j] == 0u8,
        decreases 32 - i,
    {
        z.push(0u8);
        i = i + 1;
    }
    proof {
        assert(z@ =~= zero_leaf());
    }
    z
}

/// The empty-subtree hashes for heights `0 .. depth`, each 32 bytes.
pub fn make_empty_subtrees(depth: usize) -> (cache: Vec<Vec<u8>>)
    ensures
        cache@.len() == depth,
        forall|d: int| 0 <= d < depth ==> (#[trigger] cache@[d])@ == empty_subtree(d as nat),
        forall|d: int| 0 <= d < depth ==> (#[trigger] cache@[d])@.len() == 32,
{
    let mut cache: Vec<Vec<u8>> = Vec::new();
    let mut z: Vec<u8> = make_zero_leaf();
    let mut d: usize = 0;
    while d < depth
        invariant
            0 <= d <= depth,
            cache@.len() == d,
            z@ == empty_subtree(d as nat),
            z@.len() == 32,
            forall|j: int| 0 <= j < d ==> (#[trigger] cache@[j])@ == empty_subtree(j as nat),
            forall|j: int| 0 <= j < d ==> (#[trigger] cache@[j])@.len() == 32,
        decreases depth - d,
    {
        let next = combine(&z, &z);
        cache.push(z);
        z = next;
        d = d + 1;
    }
    cache
}

} // verus!
