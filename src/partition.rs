//! How the nonce space is shared among workers: worker `i` of `n` tests the
//! offsets `i, i + n, i + 2n, ...` below `2^64`, each offset added (wrapping)
//! to a start nonce that is common to all workers of one search.
use vstd::prelude::*;
use vstd::arithmetic::div_mod::lemma_fundamental_div_mod_converse;

verus! {

/// The number of distinct nonces, `2^64`.
pub open spec fn nonce_space() -> int {
    0x1_0000_0000_0000_0000
}

/// The nonce reached from `start` by moving `offset` places, wrapping at `2^64`.
pub open spec fn nonce_at(start: u64, offset: int) -> u64 {
    ((start as int + offset) % nonce_space()) as u64
}

/// How far `n` lies after `start`, wrapping at `2^64`.
pub open spec fn offset_of(start: u64, n: u64) -> int {
    (n as int - start as int) % nonce_space()
}

/// Whether the `k`-th candidate of worker `index` (of `stride` workers) lies
/// in the nonce space, that is, its offset is below `2^64`.
pub open spec fn in_sequence(stride: nat, index: nat, k: nat) -> bool {
    index + k * stride < nonce_space()
}

/// The `k`-th candidate of worker `index` among `stride` workers.
pub open spec fn candidate_of(start: u64, stride: nat, index: nat, k: nat) -> u64 {
    nonce_at(start, (index + k * stride) as int)
}

/// The work of one worker within one search.
#[derive(Clone, Copy, Debug, PartialEq, Eq, Structural)]
pub struct WorkerTask {
    pub worker_index: usize,
    pub stride: usize,
    pub start_nonce: u64,
}

impl WorkerTask {
    pub open spec fn wf(&self) -> bool {
        0 < self.stride && self.worker_index < self.stride
    }

    /// The nonce tested at step `k`.
    pub open spec fn candidate(&self, k: nat) -> u64 {
        candidate_of(self.start_nonce, self.stride as nat, self.worker_index as nat, k)
    }

    /// Whether step `k` lies within the nonce space.
    pub open spec fn has_candidate(&self, k: nat) -> bool {
        in_sequence(self.stride as nat, self.worker_index as nat, k)
    }

    /// The nonce at `offset` places after the start nonce, wrapping at `2^64`.
    pub fn nonce_at_offset(&self, offset: u64) -> (r: u64)
        ensures
            r == nonce_at(self.start_nonce, offset as int),
    {
        if offset <= u64::MAX - self.start_nonce {
            self.start_nonce + offset
        } else {
            offset - (u64::MAX - self.start_nonce) - 1
        }
    }
}

/// A configured miner: how many workers share each search.
#[derive(Clone, Copy, Debug)]
pub struct Miner {
    num_workers: usize,
}

impl Miner {
    pub closed spec fn spec_num_workers(&self) -> nat {
        self.num_workers as nat
    }

    pub open spec fn wf(&self) -> bool {
        self.spec_num_workers() >= 1
    }

    /// A miner with `num_workers` workers; where that is zero, with
    /// `available` workers (the host's parallelism), and never fewer than one.
    pub fn new(num_workers: usize, available: usize) -> (r: Miner)
        ensures
            r.wf(),
            r.spec_num_workers() == if num_workers > 0 {
                num_workers as nat
            } else if available > 0 {
                available as nat
            } else {
                1
            },
    {
        let n = if num_workers > 0 {
            num_workers
        } else if available > 0 {
            available
        } else {
            1
        };
        Miner { num_workers: n }
    }

    pub fn num_workers(&self) -> (r: usize)
        ensures
            r as nat == self.spec_num_workers(),
    {
        self.num_workers
    }

    /// One task per worker: worker `i` gets index `i`, the miner's worker
    /// count as stride, and `start` as start nonce.
    pub fn tasks(&self, start: u64) -> (r: Vec<WorkerTask>)
        requires
            self.wf(),
        ensures
            r@.len() == self.spec_num_workers(),
            forall|i: int|
                0 <= i < r@.len() ==> (#[trigger] r@[i]) == (WorkerTask {
                    worker_index: i as usize,
                    stride: self.spec_num_workers() as usize,
                    start_nonce: start,
                }),
            forall|i: int| 0 <= i < r@.len() ==> (#[trigger] r@[i]).wf(),
    {
        let mut r: Vec<WorkerTask> = Vec::new();
        let mut i: usize = 0;
        while i < self.num_workers
            invariant
                i <= self.num_workers,
                r@.len() == i,
                forall|j: int|
                    0 <= j < i ==> (#[trigger] r@[j]) == (WorkerTask {
                        worker_index: j as usize,
                        stride: self.num_workers,
                        start_nonce: start,
                    }),
            decreases self.num_workers - i,
        {
            r.push(WorkerTask { worker_index: i, stride: self.num_workers, start_nonce: start });
            i = i + 1;
        }
        r
    }
}

proof fn lemma_nonce_at_offset_of(start: u64, n: u64)
    ensures
        0 <= offset_of(start, n) < nonce_space(),
        nonce_at(start, offset_of(start, n)) == n,
{
    let d = n as int - start as int;
    if d >= 0 {
        lemma_fundamental_div_mod_converse(d, nonce_space(), 0, d);
        lemma_fundamental_div_mod_converse(n as int, nonce_space(), 0, n as int);
    } else {
        lemma_fundamental_div_mod_converse(d, nonce_space(), -1, d + nonce_space());
        lemma_fundamental_div_mod_converse(n as int, nonce_space(), 0, n as int);
    }
}

proof fn lemma_nonce_at_injective(start: u64, x: int, y: int)
    requires
        0 <= x < nonce_space(),
        0 <= y < nonce_space(),
        nonce_at(start, x) == nonce_at(start, y),
    ensures
        x == y,
{
    let m = nonce_space();
    let a = start as int + x;
    let b = start as int + y;
    if a < m {
        lemma_fundamental_div_mod_converse(a, m, 0, a);
    } else {
        lemma_fundamental_div_mod_converse(a, m, 1, a - m);
    }
    if b < m {
        lemma_fundamental_div_mod_converse(b, m, 0, b);
    } else {
        lemma_fundamental_div_mod_converse(b, m, 1, b - m);
    }
}

/// Every nonce is tested by exactly one worker, exactly once: for `workers`
/// workers and any start nonce, `n` is the candidate of worker
/// `offset % workers` at step `offset / workers` (where `offset` is how far
/// `n` lies after the start), and of no other worker at no other step.
pub proof fn lemma_partition(start: u64, workers: nat, n: u64)
    requires
        workers > 0,
    ensures
        ({
            let o = offset_of(start, n);
            let i = (o % workers as int) as nat;
            let k = (o / workers as int) as nat;
            &&& i < workers
            &&& in_sequence(workers, i, k)
            &&& candidate_of(start, workers, i, k) == n
            &&& forall|i2: nat, k2: nat|
                i2 < workers && in_sequence(workers, i2, k2) && #[trigger] candidate_of(
                    start,
                    workers,
                    i2,
                    k2,
                ) == n ==> i2 == i && k2 == k
        }),
{
    let o = offset_of(start, n);
    let w = workers as int;
    lemma_nonce_at_offset_of(start, n);
    vstd::arithmetic::div_mod::lemma_fundamental_div_mod(o, w);
    assert(0 <= o % w < w) by {
        vstd::arithmetic::div_mod::lemma_mod_pos_bound(o, w);
    }
    assert(o / w >= 0) by {
        vstd::arithmetic::div_mod::lemma_div_pos_is_pos(o, w);
    }
    let i = (o % w) as nat;
    let k = (o / w) as nat;
    assert(i + k * workers == o) by (nonlinear_arith)
        requires
            o == w * (o / w) + o % w,
            i == o % w,
            k == o / w,
            w == workers,
    ;
    assert forall|i2: nat, k2: nat|
        i2 < workers && in_sequence(workers, i2, k2) && #[trigger] candidate_of(
            start,
            workers,
            i2,
            k2,
        ) == n implies i2 == i && k2 == k by {
        lemma_nonce_at_injective(start, (i2 + k2 * workers) as int, o);
        lemma_fundamental_div_mod_converse(o, w, k2 as int, i2 as int);
    }
}

} // verus!
