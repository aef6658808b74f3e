//! Bounded ring buffer of the most recent accumulator roots. A withdrawal
//! proof is accepted against any root in this window, so a proof built
//! against a recent-but-superseded root stays valid while the window lasts.

use vstd::arithmetic::div_mod::{
    lemma_fundamental_div_mod, lemma_fundamental_div_mod_converse, lemma_mod_bound,
    lemma_mod_self_0, lemma_small_mod,
};
use vstd::prelude::*;

use crate::bytes::{bytes_eq, copy_bytes};

verus! {

/// Number of recent roots the window keeps.
pub const ROOT_HISTORY_SIZE: usize = 30;

/// Mathematical state of the ring buffer: the stored entries, the position
/// the next root will be written at, and how many entries hold real roots.
#[verifier::ext_equal]
pub ghost struct HistoryModel {
    pub entries: Seq<Seq<u8>>,
    pub cursor: nat,
    pub filled: nat,
}

/// A well-shaped ring state: fixed size, cursor in range, and—until the ring
/// has wrapped—the cursor equal to the number of filled slots.
pub open spec fn wf_history(h: HistoryModel) -> bool {
    &&& h.entries.len() == ROOT_HISTORY_SIZE
    &&& h.cursor < ROOT_HISTORY_SIZE
    &&& h.filled <= ROOT_HISTORY_SIZE
    &&& (h.filled < ROOT_HISTORY_SIZE ==> h.cursor == h.filled)
}

/// The ring state after recording one root: it is written at the cursor, the
/// cursor advances modulo the size, and the filled count grows until full.
pub open spec fn spec_push(h: HistoryModel, root: Seq<u8>) -> HistoryModel {
    HistoryModel {
        entries: h.entries.update(h.cursor as int, root),
        cursor: ((h.cursor + 1) % (ROOT_HISTORY_SIZE as nat)),
        filled: if h.filled < ROOT_HISTORY_SIZE {
            (h.filled + 1) as nat
        } else {
            h.filled
        },
    }
}

/// The ring state after recording a sequence of roots in order.
pub open spec fn spec_push_all(h: HistoryModel, roots: Seq<Seq<u8>>) -> HistoryModel
    decreases roots.len(),
{
    if roots.len() == 0 {
        h
    } else {
        spec_push(spec_push_all(h, roots.drop_last()), roots.last())
    }
}

/// Whether the window currently holds the given root.
pub open spec fn spec_contains(h: HistoryModel, root: Seq<u8>) -> bool {
    exists|i: int| 0 <= i < h.filled && h.entries[i] == root
}

pub struct RootHistory {
    entries: Vec<Vec<u8>>,
    cursor: usize,
    filled: usize,
}

impl View for RootHistory {
    type V = HistoryModel;

    closed spec fn view(&self) -> HistoryModel {
        HistoryModel {
            entries: self.entries@.map_values(|v: Vec<u8>| v@),
            cursor: self.cursor as nat,
            filled: self.filled as nat,
        }
    }
}

impl RootHistory {
    pub closed spec fn entries_are_hashes(&self) -> bool {
        forall|i: int| 0 <= i < self.entries@.len() ==> (#[trigger] self.entries@[i])@.len() == 32
    }

    pub open spec fn wf(&self) -> bool {
        &&& wf_history(self@)
        &&& self.entries_are_hashes()
    }

    /// A fresh, empty window: every slot blank, nothing recorded yet.
    pub fn new() -> (h: RootHistory)
        ensures
            h.wf(),
            h@.cursor == 0,
            h@.filled == 0,
            h@.entries == Seq::new(
                ROOT_HISTORY_SIZE as nat,
                |i: int| crate::hashing::zero_leaf(),
            ),
    {
        let mut entries: Vec<Vec<u8>> = Vec::new();
        let mut i: usize = 0;
        while i < ROOT_HISTORY_SIZE
            invariant
                0 <= i <= ROOT_HISTORY_SIZE,
                entries@.len() == i,
                forall|j: int|
                    0 <= j < i ==> (#[trigger] entries@[j])@ == crate::hashing::zero_leaf(),
                forall|j: int| 0 <= j < i ==> (#[trigger] entries@[j])@.len() == 32,
            decreases ROOT_HISTORY_SIZE - i,
        {
            entries.push(crate::hashing::make_zero_leaf());
            i = i + 1;
        }
        let h = RootHistory { entries, cursor: 0, filled: 0 };
        proof {
            assert(h@.entries =~= Seq::new(
                ROOT_HISTORY_SIZE as nat,
                |i: int| crate::hashing::zero_leaf(),
            ));
        }
        h
    }

    /// Rebuilds a window from stored parts, validating their shape. Returns
    /// `None` exactly when the parts do not form a well-shaped ring of
    /// 32-byte entries.
    pub fn from_parts(entries: Vec<Vec<u8>>, cursor: usize, filled: usize) -> (r: Option<
        RootHistory,
    >)
        ensures
            match r {
                Some(h) => {
                    &&& wf_history(
                        HistoryModel {
                            entries: entries@.map_values(|v: Vec<u8>| v@),
                            cursor: cursor as nat,
                            filled: filled as nat,
                        },
                    )
                    &&& forall|i: int|
                        0 <= i < entries@.len() ==> (#[trigger] entries@[i])@.len() == 32
                    &&& h.wf()
                    &&& h@ == (HistoryModel {
                        entries: entries@.map_values(|v: Vec<u8>| v@),
                        cursor: cursor as nat,
                        filled: filled as nat,
                    })
                },
                None => !({
                    &&& wf_history(
                        HistoryModel {
                            entries: entries@.map_values(|v: Vec<u8>| v@),
                            cursor: cursor as nat,
                            filled: filled as nat,
                        },
                    )
                    &&& forall|i: int|
                        0 <= i < entries@.len() ==> (#[trigger] entries@[i])@.len() == 32
                }),
            },
    {
        if entries.len() != ROOT_HISTORY_SIZE {
            return None;
        }
        if cursor >= ROOT_HISTORY_SIZE || filled > ROOT_HISTORY_SIZE {
            return None;
        }
        if filled < ROOT_HISTORY_SIZE && cursor != filled {
            return None;
        }
        let mut i: usize = 0;
        while i < entries.len()
            invariant
                0 <= i <= entries@.len(),
                forall|j: int| 0 <= j < i ==> (#[trigger] entries@[j])@.len() == 32,
            decreases entries@.len() - i,
        {
            if entries[i].len() != 32 {
                proof {
                    assert(entries@.map_values(|v: Vec<u8>| v@)[i as int].len() != 32);
                }
                return None;
            }
            i = i + 1;
        }
        Some(RootHistory { entries, cursor, filled })
    }

    /// Records a root, overwriting the oldest entry once the ring is full.
    pub fn push(&mut self, root: &Vec<u8>)
        requires
            old(self).wf(),
            root@.len() == 32,
        ensures
            final(self).wf(),
            final(self)@ == spec_push(old(self)@, root@),
    {
        let r = copy_bytes(root.as_slice());
        self.entries.set(self.cursor, r);
        self.cursor = (self.cursor + 1) % ROOT_HISTORY_SIZE;
        if self.filled < ROOT_HISTORY_SIZE {
            self.filled = self.filled + 1;
        }
        proof {
            assert(self@.entries =~= spec_push(old(self)@, root@).entries);
            assert(self@ =~= spec_push(old(self)@, root@));
        }
    }

    /// Scans the filled slots for the given root.
    pub fn contains(&self, root: &Vec<u8>) -> (found: bool)
        requires
            self.wf(),
        ensures
            found == spec_contains(self@, root@),
    {
        let mut i: usize = 0;
        while i < self.filled
            invariant
                self.wf(),
                0 <= i <= self@.filled,
                forall|j: int| 0 <= j < i ==> self@.entries[j] != root@,
            decreases self@.filled - i,
        {
            if bytes_eq(self.entries[i].as_slice(), root.as_slice()) {
                proof {
                    assert(self@.entries[i as int] == root@);
                }
                return true;
            }
            i = i + 1;
        }
        false
    }

    /// Number of slots holding a recorded root.
    pub fn filled(&self) -> (n: usize)
        ensures
            n == self@.filled,
    {
        self.filled
    }

    /// The position the next root will be written at.
    pub fn cursor(&self) -> (c: usize)
        ensures
            c == self@.cursor,
    {
        self.cursor
    }

    /// The stored entry at the given slot.
    pub fn entry(&self, i: usize) -> (e: &Vec<u8>)
        requires
            self.wf(),
            i < ROOT_HISTORY_SIZE,
        ensures
            e@ == self@.entries[i as int],
    {
        &self.entries[i]
    }
}

proof fn lemma_mod_succ(a: int, n: int)
    requires
        n > 0,
        a >= 0,
    ensures
        (a % n + 1) % n == (a + 1) % n,
{
    lemma_fundamental_div_mod(a, n);
    let q = a / n;
    let r = a % n;
    lemma_mod_bound(a, n);
    if r + 1 < n {
        assert(a + 1 == q * n + (r + 1)) by (nonlinear_arith)
            requires
                a == n * q + r,
        ;
        lemma_fundamental_div_mod_converse(a + 1, n, q, r + 1);
        lemma_small_mod((r + 1) as nat, n as nat);
    } else {
        assert(a + 1 == (q + 1) * n + 0) by (nonlinear_arith)
            requires
                a == n * q + r,
                r + 1 == n,
        ;
        lemma_fundamental_div_mod_converse(a + 1, n, q + 1, 0);
        lemma_mod_self_0(n);
    }
}

proof fn lemma_mod_distinct(a: int, b: int, n: int)
    requires
        n > 0,
        0 <= a < b,
        b - a < n,
    ensures
        a % n != b % n,
{
    lemma_fundamental_div_mod(a, n);
    lemma_fundamental_div_mod(b, n);
    if a % n == b % n {
        let d = b / n - a / n;
        assert(b - a == n * d) by (nonlinear_arith)
            requires
                a == n * (a / n) + a % n,
                b == n * (b / n) + b % n,
                a % n == b % n,
                d == b / n - a / n,
        ;
        assert(false) by (nonlinear_arith)
            requires
                b - a == n * d,
                0 < b - a,
                b - a < n,
        ;
    }
}

/// Law: the window always contains the most recently recorded root.
pub proof fn lemma_push_contains(h: HistoryModel, root: Seq<u8>)
    requires
        wf_history(h),
    ensures
        spec_contains(spec_push(h, root), root),
{
    let g = spec_push(h, root);
    assert(g.entries[h.cursor as int] == root);
    assert(h.cursor < g.filled);
}

/// Law: starting from a fresh window, after recording roots in order the
/// window holds exactly the most recent ones. With K roots recorded and a
/// window of N slots: min(K, N) slots are filled; the cursor stands at
/// K mod N; slot (m mod N) holds the m-th root for every m among the last N
/// recorded (older roots having been overwritten, oldest first); and slots
/// never written still hold their initial value.
pub proof fn lemma_history_window(h: HistoryModel, roots: Seq<Seq<u8>>)
    requires
        h.entries.len() == ROOT_HISTORY_SIZE,
        h.cursor == 0,
        h.filled == 0,
    ensures
        ({
            let g = spec_push_all(h, roots);
            let k = roots.len() as int;
            let n = ROOT_HISTORY_SIZE as int;
            &&& g.entries.len() == n
            &&& g.filled == (if k < n { k } else { n })
            &&& g.cursor == k % n
            &&& forall|m: int| 0 <= m < k && k - m <= n ==> g.entries[m % n] == roots[m]
            &&& forall|j: int| k <= j < n ==> g.entries[j] == h.entries[j]
        }),
    decreases roots.len(),
{
    let g = spec_push_all(h, roots);
    let k = roots.len() as int;
    let n = ROOT_HISTORY_SIZE as int;
    if roots.len() == 0 {
        lemma_small_mod(0nat, n as nat);
    } else {
        let prev = roots.drop_last();
        lemma_history_window(h, prev);
        let p = spec_push_all(h, prev);
        assert(g == spec_push(p, roots.last()));
        lemma_mod_succ(k - 1, n);
        lemma_mod_bound(k - 1, n);
        assert(p.cursor == (k - 1) % n);
        assert forall|m: int| 0 <= m < k && k - m <= n implies g.entries[m % n] == roots[m] by {
            lemma_mod_bound(m, n);
            if m == k - 1 {
                assert(g.entries[(k - 1) % n] == roots.last());
            } else {
                lemma_mod_distinct(m, k - 1, n);
                assert(p.entries[m % n] == prev[m]);
            }
        }
        assert forall|j: int| k <= j < n implies g.entries[j] == h.entries[j] by {
            lemma_small_mod((k - 1) as nat, n as nat);
            assert(p.entries[j] == h.entries[j]);
        }
    }
}

/// Law: a root is in the window after K roots were recorded from a fresh
/// state if and only if it equals one of the last min(K, N) recorded roots.
/// In particular the window always contains the most recently recorded root,
/// and after more than N records the oldest roots are evicted.
pub proof fn lemma_history_window_contains(h: HistoryModel, roots: Seq<Seq<u8>>, r: Seq<u8>)
    requires
        h.entries.len() == ROOT_HISTORY_SIZE,
        h.cursor == 0,
        h.filled == 0,
    ensures
        ({
            let g = spec_push_all(h, roots);
            let k = roots.len() as int;
            let n = ROOT_HISTORY_SIZE as int;
            let lo = if k <= n { 0int } else { k - n };
            spec_contains(g, r) <==> exists|m: int| lo <= m < k && roots[m] == r
        }),
{
    lemma_history_window(h, roots);
    let g = spec_push_all(h, roots);
    let k = roots.len() as int;
    let n = ROOT_HISTORY_SIZE as int;
    let lo = if k <= n { 0int } else { k - n };
    if exists|m: int| lo <= m < k && roots[m] == r {
        let m = choose|m: int| lo <= m < k && roots[m] == r;
        lemma_mod_bound(m, n);
        assert(g.entries[m % n] == roots[m]);
        if k < n {
            lemma_small_mod(m as nat, n as nat);
            assert(m % n < g.filled);
        }
        assert(spec_contains(g, r));
    }
    if spec_contains(g, r) {
        let i = choose|i: int| 0 <= i < g.filled && g.entries[i] == r;
        if k <= n {
            lemma_small_mod(i as nat, n as nat);
            assert(g.entries[i % n] == roots[i]);
            assert(lo <= i < k && roots[i] == r);
        } else {
            let c = k % n;
            lemma_mod_bound(k, n);
            lemma_fundamental_div_mod(k, n);
            let q = k / n;
            let m = if i < c { k - c + i } else { k - n - c + i };
            if i < c {
                assert(m == q * n + i) by (nonlinear_arith)
                    requires
                        k == n * q + c,
                        m == k - c + i,
                ;
                lemma_fundamental_div_mod_converse(m, n, q, i);
            } else {
                assert(m == (q - 1) * n + i) by (nonlinear_arith)
                    requires
                        k == n * q + c,
                        m == k - n - c + i,
                ;
                lemma_fundamental_div_mod_converse(m, n, q - 1, i);
            }
            assert(m % n == i);
            assert(g.entries[m % n] == roots[m]);
            assert(lo <= m < k && roots[m] == r);
        }
    }
}

} // verus!
