//! The on-pool record mutated by deposits: an initialization flag, the
//! accumulator bookkeeping, and the root-history window. Recording a
//! commitment inserts it into the accumulator and appends the produced root
//! to the window, atomically: on any failure nothing changes.

use vstd::prelude::*;

use crate::accumulator::{
    spec_insert, valid_subtrees, Accumulator, AccumulatorModel, TREE_CAPACITY, TREE_DEPTH,
};
use crate::error::DepositError;
use crate::history::{spec_push, wf_history, HistoryModel, RootHistory, ROOT_HISTORY_SIZE};

verus! {

/// Mathematical state of the pool.
#[verifier::ext_equal]
pub ghost struct PoolModel {
    pub initialized: bool,
    pub acc: AccumulatorModel,
    pub history: HistoryModel,
}

/// The pool state and the root produced by recording one commitment
/// (assuming the accumulator is not at capacity).
pub open spec fn spec_record(p: PoolModel, leaf: Seq<u8>) -> (PoolModel, Seq<u8>) {
    let st = spec_insert(p.acc.subtrees, p.acc.leaf_count, leaf);
    (
        PoolModel {
            initialized: p.initialized,
            acc: AccumulatorModel { leaf_count: (p.acc.leaf_count + 1) as nat, subtrees: st.0 },
            history: spec_push(p.history, st.1),
        },
        st.1,
    )
}

pub struct PoolState {
    is_initialized: bool,
    accumulator: Accumulator,
    root_history: RootHistory,
}

impl View for PoolState {
    type V = PoolModel;

    closed spec fn view(&self) -> PoolModel {
        PoolModel {
            initialized: self.is_initialized,
            acc: self.accumulator@,
            history: self.root_history@,
        }
    }
}

impl PoolState {
    pub closed spec fn wf(&self) -> bool {
        &&& self.accumulator.wf()
        &&& self.root_history.wf()
    }

    /// A well-formed pool has a well-shaped model: this is what callers that
    /// only hold `wf()` may rely on.
    pub proof fn lemma_wf_model(&self)
        requires
            self.wf(),
        ensures
            valid_subtrees(self@.acc.subtrees),
            self@.acc.leaf_count <= TREE_CAPACITY,
            wf_history(self@.history),
    {
    }

    /// The zeroed, initialized pool state that the out-of-scope
    /// initialization operation produces: no leaves inserted, every
    /// filled subtree set to the empty subtree of its height, and an empty
    /// root-history window.
    pub fn new() -> (p: PoolState)
        ensures
            p.wf(),
            p@.initialized == true,
            p@.acc.leaf_count == 0,
            p@.acc.subtrees == Seq::new(
                TREE_DEPTH as nat,
                |d: int| crate::hashing::empty_subtree(d as nat),
            ),
            p@.history.cursor == 0,
            p@.history.filled == 0,
    {
        PoolState {
            is_initialized: true,
            accumulator: Accumulator::new(),
            root_history: RootHistory::new(),
        }
    }

    /// Rebuilds a pool state from stored parts, validating their shape.
    /// Returns `None` exactly when the accumulator or ring-buffer parts are
    /// not well-shaped.
    pub fn from_parts(
        is_initialized: bool,
        leaf_count: u64,
        subtrees: Vec<Vec<u8>>,
        entries: Vec<Vec<u8>>,
        cursor: usize,
        filled: usize,
    ) -> (r: Option<PoolState>)
        ensures
            match r {
                Some(p) => {
                    &&& p.wf()
                    &&& p@ == (PoolModel {
                        initialized: is_initialized,
                        acc: AccumulatorModel {
                            leaf_count: leaf_count as nat,
                            subtrees: subtrees@.map_values(|v: Vec<u8>| v@),
                        },
                        history: HistoryModel {
                            entries: entries@.map_values(|v: Vec<u8>| v@),
                            cursor: cursor as nat,
                            filled: filled as nat,
                        },
                    })
                },
                None => !({
                    &&& leaf_count <= TREE_CAPACITY
                    &&& valid_subtrees(subtrees@.map_values(|v: Vec<u8>| v@))
                    &&& wf_history(
                        HistoryModel {
                            entries: entries@.map_values(|v: Vec<u8>| v@),
                            cursor: cursor as nat,
                            filled: filled as nat,
                        },
                    )
                    &&& forall|i: int|
                        0 <= i < entries@.len() ==> (#[trigger] entries@[i])@.len() == 32
                }),
            },
    {
        let accumulator = match Accumulator::from_parts(leaf_count, subtrees) {
            Some(a) => a,
            None => {
                return None;
            },
        };
        let root_history = match RootHistory::from_parts(entries, cursor, filled) {
            Some(h) => h,
            None => {
                return None;
            },
        };
        Some(PoolState { is_initialized, accumulator, root_history })
    }

    /// Whether the pool has been initialized.
    pub fn is_initialized(&self) -> (b: bool)
        ensures
            b == self@.initialized,
    {
        self.is_initialized
    }

    /// Inserts a 32-byte commitment into the accumulator and records the
    /// produced root in the history window; fails, changing nothing, exactly
    /// when the accumulator is at capacity.
    pub fn record_commitment(&mut self, commitment: &Vec<u8>) -> (r: Result<
        Vec<u8>,
        DepositError,
    >)
        requires
            old(self).wf(),
            commitment@.len() == 32,
        ensures
            final(self).wf(),
            match r {
                Ok(root) => {
                    &&& old(self)@.acc.leaf_count < TREE_CAPACITY
                    &&& final(self)@ == spec_record(old(self)@, commitment@).0
                    &&& final(self)@.acc.leaf_count == old(self)@.acc.leaf_count + 1
                    &&& root@ == spec_record(old(self)@, commitment@).1
                    &&& root@.len() == 32
                    &&& crate::history::spec_contains(final(self)@.history, root@)
                },
                Err(e) => {
                    &&& e == DepositError::TreeFull
                    &&& old(self)@.acc.leaf_count == TREE_CAPACITY
                    &&& final(self)@ == old(self)@
                },
            },
    {
        let root = match self.accumulator.insert(commitment) {
            Ok(root) => root,
            Err(e) => {
                proof {
                    assert(self@ =~= old(self)@);
                }
                return Err(e);
            },
        };
        self.root_history.push(&root);
        proof {
            assert(self@ =~= spec_record(old(self)@, commitment@).0);
            crate::history::lemma_push_contains(old(self)@.history, root@);
        }
        Ok(root)
    }

    /// The accumulator component.
    pub fn accumulator(&self) -> (a: &Accumulator)
        ensures
            a@ == self@.acc,
            self.wf() ==> a.wf(),
    {
        &self.accumulator
    }

    /// The root-history component.
    pub fn root_history(&self) -> (h: &RootHistory)
        ensures
            h@ == self@.history,
            self.wf() ==> h.wf(),
    {
        &self.root_history
    }
}

} // verus!
