//! The search itself: the loop each worker runs over its share of the nonce
//! space, the flags the workers share, and how the workers' outcomes make
//! the result of one search.
use vstd::prelude::*;
use std::sync::Arc;
use std::sync::atomic::{AtomicBool, Ordering};
use crate::nonce::NONCE_LEN;
use crate::partition::{
    in_sequence, lemma_partition, offset_of, Miner, WorkerTask,
};
use crate::score::{candidate_meets, meets};

verus! {

/// Why a search gave no nonce.
#[derive(Clone, Copy, Debug, PartialEq, Eq, Structural)]
pub enum SearchError {
    /// The buffer is too short to hold the eight-byte nonce field.
    InvalidInput,
    /// Every nonce was tested and none reached the target.
    Exhausted,
    /// The search was stopped before any worker found a nonce.
    Cancelled,
}

/// How one worker's loop ended.
#[derive(Clone, Copy, Debug, PartialEq, Eq, Structural)]
pub enum WorkerOutcome {
    /// This worker found the nonce and was the first to claim the win.
    Found(u64),
    /// This worker tested all of its nonces and none reached the target.
    Exhausted,
    /// This worker saw a stop signal, or found a nonce after another worker
    /// had claimed the win.
    Stopped,
}

/// A flag that the caller of a search can raise to stop it. Clones share
/// the flag.
#[derive(Clone, Debug)]
pub struct CancelToken {
    flag: Arc<AtomicBool>,
}

impl CancelToken {
    pub fn new() -> (r: CancelToken) {
        CancelToken { flag: Arc::new(AtomicBool::new(false)) }
    }

    /// Asks every search that holds this token to stop.
    pub fn trigger(&self) {
        self.flag.store(true, Ordering::SeqCst);
    }

    pub fn is_cancelled(&self) -> bool {
        self.flag.load(Ordering::SeqCst)
    }
}

/// The state the workers of one search share: the caller's cancel token
/// and the single-assignment flag that the winning worker claims.
#[derive(Clone, Debug)]
pub struct Signals {
    cancel: CancelToken,
    won: Arc<AtomicBool>,
}

impl Signals {
    /// Fresh signals for one search, watching `cancel`.
    pub fn new(cancel: &CancelToken) -> (r: Signals) {
        Signals { cancel: cancel.clone(), won: Arc::new(AtomicBool::new(false)) }
    }

    /// Whether the caller cancelled or some worker has already won.
    pub fn should_stop(&self) -> bool {
        self.cancel.is_cancelled() || self.won.load(Ordering::SeqCst)
    }

    /// Claims the win; true for the first caller only, which also makes
    /// every later `should_stop` true.
    pub fn claim(&self) -> bool {
        !self.won.swap(true, Ordering::SeqCst)
    }
}

/// What an outcome of `task`'s loop over `buffer` toward `target` tells:
/// a found nonce is one of the task's candidates and reaches the target,
/// and an exhausted task has no candidate that does.
pub open spec fn outcome_sound(
    task: WorkerTask,
    buffer: Seq<u8>,
    target: u32,
    outcome: WorkerOutcome,
) -> bool {
    match outcome {
        WorkerOutcome::Found(n) => meets(buffer, n, target) && exists|k: nat|
            task.has_candidate(k) && #[trigger] task.candidate(k) == n,
        WorkerOutcome::Exhausted => forall|k: nat|
            task.has_candidate(k) ==> !meets(buffer, #[trigger] task.candidate(k), target),
        WorkerOutcome::Stopped => true,
    }
}

/// One worker's loop: tests the task's candidates in order, looking at the
/// stop signal before each one, until a candidate reaches the target, the
/// candidates run out, or it is told to stop.
pub fn search_worker(task: &WorkerTask, buffer: &Vec<u8>, target: u32, signals: &Signals) -> (r:
    WorkerOutcome)
    requires
        task.wf(),
        buffer@.len() >= NONCE_LEN,
    ensures
        outcome_sound(*task, buffer@, target, r),
{
    let stride = task.stride as u64;
    let mut offset: u64 = task.worker_index as u64;
    let ghost mut k: nat = 0;
    loop
        invariant
            task.wf(),
            buffer@.len() >= NONCE_LEN,
            stride == task.stride,
            offset as int == task.worker_index as int + k * task.stride as int,
            forall|j: nat| j < k ==> !meets(buffer@, #[trigger] task.candidate(j), target),
        decreases u64::MAX - offset,
    {
        if signals.should_stop() {
            return WorkerOutcome::Stopped;
        }
        let n = task.nonce_at_offset(offset);
        assert(n == task.candidate(k));
        if candidate_meets(buffer, n, target) {
            assert(task.has_candidate(k));
            if signals.claim() {
                return WorkerOutcome::Found(n);
            } else {
                return WorkerOutcome::Stopped;
            }
        }
        if offset > u64::MAX - stride {
            assert forall|j: nat| task.has_candidate(j) implies !meets(
                buffer@,
                #[trigger] task.candidate(j),
                target,
            ) by {
                if j > k {
                    assert(j * task.stride as int >= (k + 1) * task.stride as int) by (
                    nonlinear_arith)
                        requires
                            j >= k + 1,
                            task.stride > 0,
                    ;
                    assert(task.worker_index as int + (k + 1) * task.stride as int == offset
                        + stride) by (nonlinear_arith)
                        requires
                            offset as int == task.worker_index as int + k * task.stride as int,
                            stride == task.stride,
                    ;
                    assert(in_sequence(task.stride as nat, task.worker_index as nat, j));
                    assert(false);
                } else if j == k {
                    assert(task.candidate(j) == n);
                }
            }
            return WorkerOutcome::Exhausted;
        }
        assert(task.worker_index as int + (k + 1) * task.stride as int == offset + stride) by (
        nonlinear_arith)
            requires
                offset as int == task.worker_index as int + k * task.stride as int,
                stride == task.stride,
        ;
        offset = offset + stride;
        proof {
            k = k + 1;
        }
    }
}

/// The result of a search whose workers ended with `outcomes`: the first
/// found nonce; else `Cancelled` if some worker was stopped; else
/// `Exhausted`.
pub open spec fn settled(outcomes: Seq<WorkerOutcome>) -> Result<u64, SearchError>
    decreases outcomes.len(),
{
    if outcomes.len() == 0 {
        Err(SearchError::Exhausted)
    } else {
        let before = settled(outcomes.drop_last());
        match before {
            Ok(n) => Ok(n),
            Err(_) => match outcomes.last() {
                WorkerOutcome::Found(n) => Ok(n),
                WorkerOutcome::Stopped => Err(SearchError::Cancelled),
                WorkerOutcome::Exhausted => before,
            },
        }
    }
}

/// Combines the workers' outcomes into the result of the search.
pub fn settle(outcomes: &Vec<WorkerOutcome>) -> (r: Result<u64, SearchError>)
    ensures
        r == settled(outcomes@),
{
    let mut r: Result<u64, SearchError> = Err(SearchError::Exhausted);
    let mut i: usize = 0;
    while i < outcomes.len()
        invariant
            i <= outcomes@.len(),
            r == settled(outcomes@.subrange(0, i as int)),
        decreases outcomes@.len() - i,
    {
        assert(outcomes@.subrange(0, i + 1).drop_last() =~= outcomes@.subrange(0, i as int));
        if r.is_err() {
            match outcomes[i] {
                WorkerOutcome::Found(n) => {
                    r = Ok(n);
                },
                WorkerOutcome::Stopped => {
                    r = Err(SearchError::Cancelled);
                },
                WorkerOutcome::Exhausted => {},
            }
        }
        i = i + 1;
    }
    assert(outcomes@.subrange(0, outcomes@.len() as int) =~= outcomes@);
    r
}

proof fn lemma_settled_cases(outcomes: Seq<WorkerOutcome>)
    ensures
        settled(outcomes) != Err::<u64, SearchError>(SearchError::InvalidInput),
        settled(outcomes) matches Ok(n) ==> exists|i: int|
            0 <= i < outcomes.len() && outcomes[i] == WorkerOutcome::Found(n),
        settled(outcomes) == Err::<u64, SearchError>(SearchError::Exhausted) ==> forall|i: int|
            0 <= i < outcomes.len() ==> outcomes[i] == WorkerOutcome::Exhausted,
    decreases outcomes.len(),
{
    if outcomes.len() > 0 {
        let before = outcomes.drop_last();
        lemma_settled_cases(before);
        if let Ok(n) = settled(before) {
            let i = choose|i: int| 0 <= i < before.len() && before[i] == WorkerOutcome::Found(n);
            assert(outcomes[i] == WorkerOutcome::Found(n));
        }
        if settled(outcomes) == Err::<u64, SearchError>(SearchError::Exhausted) {
            assert forall|i: int| 0 <= i < outcomes.len() implies outcomes[i]
                == WorkerOutcome::Exhausted by {
                if i < outcomes.len() - 1 {
                    assert(outcomes[i] == before[i]);
                }
            }
        }
    }
}

/// A nonce returned by a search reaches the target: whatever the workers'
/// loops ended with, and whichever worker won, the nonce that `settle`
/// picks from their outcomes is valid for `buffer` and `target`.
pub proof fn lemma_search_valid(
    tasks: Seq<WorkerTask>,
    buffer: Seq<u8>,
    target: u32,
    outcomes: Seq<WorkerOutcome>,
)
    requires
        outcomes.len() == tasks.len(),
        forall|i: int|
            0 <= i < outcomes.len() ==> outcome_sound(
                #[trigger] tasks[i],
                buffer,
                target,
                outcomes[i],
            ),
    ensures
        settled(outcomes) matches Ok(n) ==> meets(buffer, n, target),
{
    lemma_settled_cases(outcomes);
    if let Ok(n) = settled(outcomes) {
        let i = choose|i: int| 0 <= i < outcomes.len() && outcomes[i] == WorkerOutcome::Found(n);
        assert(outcome_sound(tasks[i], buffer, target, outcomes[i]));
    }
}

/// A search over all the tasks of one start nonce reports `Exhausted` only
/// when no nonce at all reaches the target.
pub proof fn lemma_exhausted_means_none(
    start: u64,
    workers: usize,
    tasks: Seq<WorkerTask>,
    buffer: Seq<u8>,
    target: u32,
    outcomes: Seq<WorkerOutcome>,
)
    requires
        workers > 0,
        tasks.len() == workers,
        outcomes.len() == workers,
        forall|i: int|
            0 <= i < workers ==> #[trigger] tasks[i] == (WorkerTask {
                worker_index: i as usize,
                stride: workers,
                start_nonce: start,
            }),
        forall|i: int|
            0 <= i < outcomes.len() ==> outcome_sound(
                #[trigger] tasks[i],
                buffer,
                target,
                outcomes[i],
            ),
    ensures
        settled(outcomes) == Err::<u64, SearchError>(SearchError::Exhausted) ==> forall|n: u64|
            !meets(buffer, n, target),
{
    lemma_settled_cases(outcomes);
    if settled(outcomes) == Err::<u64, SearchError>(SearchError::Exhausted) {
        assert forall|n: u64| !meets(buffer, n, target) by {
            lemma_partition(start, workers as nat, n);
            let o = offset_of(start, n);
            let i = (o % workers as int) as nat;
            let k = (o / workers as int) as nat;
            let t = tasks[i as int];
            assert(outcome_sound(t, buffer, target, outcomes[i as int]));
            assert(t.has_candidate(k));
            assert(t.candidate(k) == n);
        }
    }
}

impl Miner {
    /// Runs a whole search on the calling thread: the miner's workers, one
    /// after another, share the nonce space from `start` and stop at the
    /// first win or when `cancel` is raised.
    pub fn search(&self, buffer: &Vec<u8>, target: u32, start: u64, cancel: &CancelToken) -> (r:
        Result<u64, SearchError>)
        requires
            self.wf(),
        ensures
            r == Err::<u64, SearchError>(SearchError::InvalidInput) <==> buffer@.len()
                < NONCE_LEN,
            r matches Ok(n) ==> meets(buffer@, n, target),
            r == Err::<u64, SearchError>(SearchError::Exhausted) ==> forall|n: u64|
                !meets(buffer@, n, target),
    {
        if buffer.len() < NONCE_LEN {
            return Err(SearchError::InvalidInput);
        }
        let tasks = self.tasks(start);
        let signals = Signals::new(cancel);
        let mut outcomes: Vec<WorkerOutcome> = Vec::new();
        let mut i: usize = 0;
        while i < tasks.len()
            invariant
                buffer@.len() >= NONCE_LEN,
                i <= tasks@.len(),
                outcomes@.len() == i,
                forall|j: int| 0 <= j < tasks@.len() ==> (#[trigger] tasks@[j]).wf(),
                forall|j: int|
                    0 <= j < i ==> outcome_sound(
                        #[trigger] tasks@[j],
                        buffer@,
                        target,
                        outcomes@[j],
                    ),
            decreases tasks@.len() - i,
        {
            let o = search_worker(&tasks[i], buffer, target, &signals);
            outcomes.push(o);
            i = i + 1;
        }
        let r = settle(&outcomes);
        proof {
            lemma_settled_cases(outcomes@);
            lemma_search_valid(tasks@, buffer@, target, outcomes@);
            lemma_exhausted_means_none(
                start,
                self.spec_num_workers() as usize,
                tasks@,
                buffer@,
                target,
                outcomes@,
            );
        }
        r
    }
}

} // verus!
