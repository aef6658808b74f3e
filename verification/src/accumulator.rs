//! Append-only Merkle accumulator of fixed depth. One leaf is inserted per
//! deposit; the root is recomputed in time proportional to the depth, keeping
//! only one filled-subtree hash per level instead of the whole tree.

use vstd::prelude::*;

use crate::bytes::copy_bytes;
use crate::error::DepositError;
use crate::hashing::{combine, combine_of, empty_subtree, make_empty_subtrees};

verus! {

/// Depth of the commitment tree: the accumulator can hold `2^TREE_DEPTH`
/// leaves over the lifetime of the pool.
pub const TREE_DEPTH: usize = 20;

/// Number of leaves at which the tree is exhausted; equals `2^TREE_DEPTH`.
pub const TREE_CAPACITY: u64 = 1048576;

/// Mathematical state of the accumulator: how many leaves were ever inserted,
/// and the filled-subtree hash stored at each level.
#[verifier::ext_equal]
pub ghost struct AccumulatorModel {
    pub leaf_count: nat,
    pub subtrees: Seq<Seq<u8>>,
}

/// One insertion, carried from `level` up to the root. At each level the bit
/// of `index` decides whether the carried node is a left child (store it as
/// the level's filled subtree and pair it with an empty subtree) or a right
/// child (pair the stored filled subtree with it). Returns the filled-subtree
/// state after the insertion together with the value carried out at the top,
/// which at the last level is the new root.
pub open spec fn insert_levels(
    subtrees: Seq<Seq<u8>>,
    index: nat,
    current: Seq<u8>,
    level: nat,
) -> (Seq<Seq<u8>>, Seq<u8>)
    decreases subtrees.len() - level,
{
    if level >= subtrees.len() {
        (subtrees, current)
    } else if index % 2 == 0 {
        insert_levels(
            subtrees.update(level as int, current),
            index / 2,
            combine_of(current, empty_subtree(level)),
            level + 1,
        )
    } else {
        insert_levels(
            subtrees,
            index / 2,
            combine_of(subtrees[level as int], current),
            level + 1,
        )
    }
}

/// The filled-subtree state and the root produced by inserting `leaf` at
/// position `index`.
pub open spec fn spec_insert(subtrees: Seq<Seq<u8>>, index: nat, leaf: Seq<u8>) -> (
    Seq<Seq<u8>>,
    Seq<u8>,
) {
    insert_levels(subtrees, index, leaf, 0)
}

/// A well-shaped filled-subtree state: one 32-byte hash per level.
pub open spec fn valid_subtrees(s: Seq<Seq<u8>>) -> bool {
    &&& s.len() == TREE_DEPTH
    &&& forall|d: int| 0 <= d < s.len() ==> (#[trigger] s[d]).len() == 32
}

pub struct Accumulator {
    leaf_count: u64,
    filled_subtrees: Vec<Vec<u8>>,
    empty_cache: Vec<Vec<u8>>,
}

impl View for Accumulator {
    type V = AccumulatorModel;

    closed spec fn view(&self) -> AccumulatorModel {
        AccumulatorModel {
            leaf_count: self.leaf_count as nat,
            subtrees: self.filled_subtrees@.map_values(|v: Vec<u8>| v@),
        }
    }
}

impl Accumulator {
    pub closed spec fn cache_ok(&self) -> bool {
        &&& self.empty_cache@.len() == TREE_DEPTH
        &&& forall|d: int|
            0 <= d < TREE_DEPTH ==> (#[trigger] self.empty_cache@[d])@ == empty_subtree(d as nat)
        &&& forall|d: int| 0 <= d < TREE_DEPTH ==> (#[trigger] self.empty_cache@[d])@.len() == 32
    }

    pub open spec fn wf(&self) -> bool {
        &&& valid_subtrees(self@.subtrees)
        &&& self@.leaf_count <= TREE_CAPACITY
        &&& self.cache_ok()
    }

    /// A fresh accumulator: no leaves, and every level's filled subtree set
    /// to the empty subtree of its height.
    pub fn new() -> (a: Accumulator)
        ensures
            a.wf(),
            a@.leaf_count == 0,
            a@.subtrees == Seq::new(TREE_DEPTH as nat, |d: int| empty_subtree(d as nat)),
    {
        let empty_cache = make_empty_subtrees(TREE_DEPTH);
        let filled_subtrees = make_empty_subtrees(TREE_DEPTH);
        let a = Accumulator { leaf_count: 0, filled_subtrees, empty_cache };
        proof {
            assert(a@.subtrees =~= Seq::new(TREE_DEPTH as nat, |d: int| empty_subtree(d as nat)));
        }
        a
    }

    /// Rebuilds an accumulator from stored parts, validating their shape.
    /// Returns `None` exactly when the leaf count exceeds the capacity or the
    /// subtree state is not one 32-byte hash per level.
    pub fn from_parts(leaf_count: u64, subtrees: Vec<Vec<u8>>) -> (r: Option<Accumulator>)
        ensures
            match r {
                Some(a) => {
                    &&& leaf_count <= TREE_CAPACITY
                    &&& valid_subtrees(subtrees@.map_values(|v: Vec<u8>| v@))
                    &&& a.wf()
                    &&& a@.leaf_count == leaf_count
                    &&& a@.subtrees == subtrees@.map_values(|v: Vec<u8>| v@)
                },
                None => !(leaf_count <= TREE_CAPACITY && valid_subtrees(
                    subtrees@.map_values(|v: Vec<u8>| v@),
                )),
            },
    {
        if leaf_count > TREE_CAPACITY {
            return None;
        }
        if subtrees.len() != TREE_DEPTH {
            return None;
        }
        let mut i: usize = 0;
        while i < subtrees.len()
            invariant
                0 <= i <= subtrees@.len(),
                forall|j: int| 0 <= j < i ==> (#[trigger] subtrees@[j])@.len() == 32,
            decreases subtrees@.len() - i,
        {
            if subtrees[i].len() != 32 {
                proof {
                    assert(subtrees@.map_values(|v: Vec<u8>| v@)[i as int].len() != 32);
                }
                return None;
            }
            i = i + 1;
        }
        let empty_cache = make_empty_subtrees(TREE_DEPTH);
        let a = Accumulator { leaf_count, filled_subtrees: subtrees, empty_cache };
        Some(a)
    }

    /// Inserts one 32-byte leaf and returns the new root, or reports the tree
    /// exhausted exactly when the leaf count has reached the capacity. On
    /// failure nothing changes.
    pub fn insert(&mut self, leaf: &Vec<u8>) -> (r: Result<Vec<u8>, DepositError>)
        requires
            old(self).wf(),
            leaf@.len() == 32,
        ensures
            final(self).wf(),
            match r {
                Ok(root) => {
                    &&& old(self)@.leaf_count < TREE_CAPACITY
                    &&& final(self)@.leaf_count == old(self)@.leaf_count + 1
                    &&& final(self)@.subtrees == spec_insert(
                        old(self)@.subtrees,
                        old(self)@.leaf_count,
                        leaf@,
                    ).0
                    &&& root@ == spec_insert(old(self)@.subtrees, old(self)@.leaf_count, leaf@).1
                    &&& root@.len() == 32
                },
                Err(e) => {
                    &&& e == DepositError::TreeFull
                    &&& old(self)@.leaf_count == TREE_CAPACITY
                    &&& final(self)@ == old(self)@
                },
            },
    {
        if self.leaf_count >= TREE_CAPACITY {
            return Err(DepositError::TreeFull);
        }
        let ghost subtrees0 = self@.subtrees;
        let ghost index0 = self@.leaf_count;
        let ghost leaf0 = leaf@;
        let count0 = self.leaf_count;
        let mut current: Vec<u8> = copy_bytes(leaf.as_slice());
        let mut index: u64 = self.leaf_count;
        let mut level: usize = 0;
        while level < TREE_DEPTH
            invariant
                0 <= level <= TREE_DEPTH,
                self.leaf_count == count0,
                count0 < TREE_CAPACITY,
                valid_subtrees(self@.subtrees),
                self.empty_cache@.len() == TREE_DEPTH,
                forall|d: int|
                    0 <= d < TREE_DEPTH ==> (#[trigger] self.empty_cache@[d])@ == empty_subtree(
                        d as nat,
                    ),
                forall|d: int|
                    0 <= d < TREE_DEPTH ==> (#[trigger] self.empty_cache@[d])@.len() == 32,
                current@.len() == 32,
                insert_levels(self@.subtrees, index as nat, current@, level as nat)
                    == insert_levels(subtrees0, index0, leaf0, 0),
            decreases TREE_DEPTH - level,
        {
            let ghost pre_subtrees = self@.subtrees;
            let ghost pre_index = index as nat;
            let ghost pre_current = current@;
            if index % 2 == 0 {
                let next = combine(&current, &self.empty_cache[level]);
                self.filled_subtrees.set(level, current);
                current = next;
                proof {
                    assert(self@.subtrees =~= pre_subtrees.update(level as int, pre_current));
                    assert(insert_levels(pre_subtrees, pre_index, pre_current, level as nat)
                        == insert_levels(
                        self@.subtrees,
                        pre_index / 2,
                        current@,
                        (level + 1) as nat,
                    ));
                }
            } else {
                let next = combine(&self.filled_subtrees[level], &current);
                current = next;
                proof {
                    assert(insert_levels(pre_subtrees, pre_index, pre_current, level as nat)
                        == insert_levels(
                        self@.subtrees,
                        pre_index / 2,
                        current@,
                        (level + 1) as nat,
                    ));
                }
            }
            index = index / 2;
            level = level + 1;
        }
        self.leaf_count = self.leaf_count + 1;
        proof {
            assert(insert_levels(self@.subtrees, index as nat, current@, TREE_DEPTH as nat)
                == (self@.subtrees, current@));
        }
        Ok(current)
    }

    /// Number of leaves ever inserted.
    pub fn leaf_count(&self) -> (n: u64)
        ensures
            n == self@.leaf_count,
    {
        self.leaf_count
    }

    /// The filled-subtree hash stored for the given level.
    pub fn subtree(&self, level: usize) -> (h: &Vec<u8>)
        requires
            self.wf(),
            level < TREE_DEPTH,
        ensures
            h@ == self@.subtrees[level as int],
    {
        &self.filled_subtrees[level]
    }
}

/// Law: the accumulator is deterministic. The subtree state and the root
/// produced by an insertion are functions of the filled-subtree state, the
/// leaf index, and the leaf alone; replaying the same insertion from the same
/// state yields the same result.
pub proof fn lemma_insert_deterministic(
    subtrees1: Seq<Seq<u8>>,
    index1: nat,
    leaf1: Seq<u8>,
    subtrees2: Seq<Seq<u8>>,
    index2: nat,
    leaf2: Seq<u8>,
)
    requires
        subtrees1 == subtrees2,
        index1 == index2,
        leaf1 == leaf2,
    ensures
        spec_insert(subtrees1, index1, leaf1) == spec_insert(subtrees2, index2, leaf2),
{
}

/// The sequence of roots produced by inserting `leaves` in order, starting
/// from the given filled-subtree state with `index` leaves already inserted.
pub open spec fn roots_of_inserts(subtrees: Seq<Seq<u8>>, index: nat, leaves: Seq<Seq<u8>>) -> Seq<
    Seq<u8>,
>
    decreases leaves.len(),
{
    if leaves.len() == 0 {
        Seq::empty()
    } else {
        let step = spec_insert(subtrees, index, leaves[0]);
        seq![step.1] + roots_of_inserts(step.0, index + 1, leaves.drop_first())
    }
}

/// Law: inserting the same sequence of commitments from the same initial
/// state always yields the same sequence of roots.
pub proof fn lemma_roots_deterministic(
    subtrees1: Seq<Seq<u8>>,
    index1: nat,
    leaves1: Seq<Seq<u8>>,
    subtrees2: Seq<Seq<u8>>,
    index2: nat,
    leaves2: Seq<Seq<u8>>,
)
    requires
        subtrees1 == subtrees2,
        index1 == index2,
        leaves1 == leaves2,
    ensures
        roots_of_inserts(subtrees1, index1, leaves1) == roots_of_inserts(
            subtrees2,
            index2,
            leaves2,
        ),
{
}

} // verus!
