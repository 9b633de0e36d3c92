use bee_pow::score::compute_pow_score;
use pow_miner::nonce::{nonce_from_halves, nonce_halves, with_nonce};
use pow_miner::partition::{Miner, WorkerTask};
use pow_miner::score::{candidate_meets, score_reaches};
use pow_miner::search::{
    search_worker, settle, CancelToken, SearchError, Signals, WorkerOutcome,
};

fn fixture() -> Vec<u8> {
    let mut bytes = vec![1u8; 20];
    bytes.extend_from_slice(&[0u8; 8]);
    bytes
}

#[allow(deprecated)]
fn pow_score(bytes: &[u8]) -> f64 {
    compute_pow_score(bytes)
}

#[test]
fn miner_provide() {
    let miner = Miner::new(1, 1);
    let mut bytes: [u8; 28] = [
        1, 1, 1, 1, 1, 1, 1, 1, 1, 1, 1, 1, 1, 1, 1, 1, 1, 1, 1, 1, 0, 0, 0, 0, 0, 0, 0, 0,
    ];

    let nonce = miner.search(&bytes.to_vec(), 400, 0, &CancelToken::new()).unwrap();
    bytes[20..].copy_from_slice(&nonce.to_le_bytes());

    assert!(pow_score(&bytes) >= 400f64);
}

#[test]
fn many_workers_find_a_valid_nonce() {
    let miner = Miner::new(4, 1);
    let buffer = fixture();
    for start in [0u64, 1_000_000, u64::MAX - 3] {
        let nonce = miner.search(&buffer, 100, start, &CancelToken::new()).unwrap();
        let scored = with_nonce(&buffer, nonce);
        assert!(pow_score(&scored) >= 100f64);
        assert!(candidate_meets(&buffer, nonce, 100));
    }
}

#[test]
fn single_worker_finds_a_valid_nonce() {
    let miner = Miner::new(1, 8);
    assert_eq!(miner.num_workers(), 1);
    let buffer = vec![7u8; 40];
    let nonce = miner.search(&buffer, 50, 12345, &CancelToken::new()).unwrap();
    assert!(pow_score(&with_nonce(&buffer, nonce)) >= 50f64);
}

#[test]
fn candidate_meets_agrees_with_bee_pow_score() {
    let buffer = fixture();
    for nonce in 0u64..200 {
        let scored = with_nonce(&buffer, nonce);
        for target in [1u32, 3, 10, 50, 100] {
            assert_eq!(
                candidate_meets(&buffer, nonce, target),
                pow_score(&scored) >= target as f64
            );
        }
    }
}

#[test]
fn candidate_meets_depends_on_the_nonce() {
    let buffer = fixture();
    let miner = Miner::new(1, 1);
    let nonce = miner.search(&buffer, 300, 0, &CancelToken::new()).unwrap();
    assert!(candidate_meets(&buffer, nonce, 300));
    let misses = (0u64..50).filter(|n| !candidate_meets(&buffer, *n, 300)).count();
    assert!(misses > 0);
}

#[test]
fn zero_target_returns_the_first_candidate() {
    let miner = Miner::new(4, 1);
    assert_eq!(miner.search(&fixture(), 0, 42, &CancelToken::new()), Ok(42));
}

#[test]
fn short_buffer_is_invalid_input() {
    let miner = Miner::new(2, 1);
    assert_eq!(
        miner.search(&vec![0u8; 7], 1, 0, &CancelToken::new()),
        Err(SearchError::InvalidInput)
    );
    assert_eq!(miner.search(&vec![0u8; 8], 0, 5, &CancelToken::new()), Ok(5));
}

#[test]
fn cancelled_search_returns_cancelled() {
    let miner = Miner::new(3, 1);
    let cancel = CancelToken::new();
    assert!(!cancel.is_cancelled());
    cancel.trigger();
    assert!(cancel.clone().is_cancelled());
    assert_eq!(
        miner.search(&fixture(), u32::MAX, 0, &cancel),
        Err(SearchError::Cancelled)
    );
}

#[test]
fn only_one_worker_wins() {
    let miner = Miner::new(8, 1);
    let tasks = miner.tasks(1000);
    let signals = Signals::new(&CancelToken::new());
    let buffer = fixture();
    let outcomes: Vec<WorkerOutcome> = tasks
        .iter()
        .map(|t| search_worker(t, &buffer, 0, &signals))
        .collect();
    let found = outcomes
        .iter()
        .filter(|o| matches!(o, WorkerOutcome::Found(_)))
        .count();
    assert_eq!(found, 1);
    assert_eq!(outcomes[0], WorkerOutcome::Found(1000));
    assert!(outcomes[1..].iter().all(|o| *o == WorkerOutcome::Stopped));
    assert_eq!(settle(&outcomes), Ok(1000));
}

#[test]
fn claim_is_granted_once() {
    let signals = Signals::new(&CancelToken::new());
    assert!(!signals.should_stop());
    assert!(signals.claim());
    assert!(!signals.claim());
    assert!(signals.clone().should_stop());
}

#[test]
fn worker_finds_its_own_candidate() {
    let task = WorkerTask { worker_index: 2, stride: 4, start_nonce: 100 };
    let signals = Signals::new(&CancelToken::new());
    assert_eq!(search_worker(&task, &fixture(), 0, &signals), WorkerOutcome::Found(102));
}

#[test]
fn worker_stops_when_cancelled() {
    let task = WorkerTask { worker_index: 0, stride: 1, start_nonce: 0 };
    let cancel = CancelToken::new();
    let signals = Signals::new(&cancel);
    cancel.trigger();
    assert_eq!(search_worker(&task, &fixture(), 0, &signals), WorkerOutcome::Stopped);
}

#[test]
fn settle_picks_the_result() {
    assert_eq!(settle(&vec![]), Err(SearchError::Exhausted));
    assert_eq!(
        settle(&vec![WorkerOutcome::Exhausted, WorkerOutcome::Exhausted]),
        Err(SearchError::Exhausted)
    );
    assert_eq!(
        settle(&vec![WorkerOutcome::Exhausted, WorkerOutcome::Stopped]),
        Err(SearchError::Cancelled)
    );
    assert_eq!(
        settle(&vec![
            WorkerOutcome::Stopped,
            WorkerOutcome::Found(7),
            WorkerOutcome::Exhausted
        ]),
        Ok(7)
    );
}

#[test]
fn miner_worker_count() {
    assert_eq!(Miner::new(3, 8).num_workers(), 3);
    assert_eq!(Miner::new(0, 6).num_workers(), 6);
    assert_eq!(Miner::new(0, 0).num_workers(), 1);
}

#[test]
fn tasks_stride_the_space() {
    let tasks = Miner::new(3, 1).tasks(5);
    assert_eq!(tasks.len(), 3);
    for (i, t) in tasks.iter().enumerate() {
        assert_eq!(*t, WorkerTask { worker_index: i, stride: 3, start_nonce: 5 });
    }
}

#[test]
fn nonce_at_offset_wraps() {
    let task = WorkerTask { worker_index: 0, stride: 1, start_nonce: u64::MAX };
    assert_eq!(task.nonce_at_offset(0), u64::MAX);
    assert_eq!(task.nonce_at_offset(1), 0);
    assert_eq!(task.nonce_at_offset(10), 9);
    let task = WorkerTask { worker_index: 0, stride: 1, start_nonce: 7 };
    assert_eq!(task.nonce_at_offset(3), 10);
}

#[test]
fn partition_covers_a_small_domain_once() {
    let domain: usize = 1 << 16;
    for workers in [1usize, 3, 7, 16] {
        let start = u64::MAX - 1000;
        let mut seen = vec![0u8; domain];
        for task in Miner::new(workers, 1).tasks(start) {
            let mut offset = task.worker_index as u64;
            while (offset as usize) < domain {
                let n = task.nonce_at_offset(offset);
                let slot = n.wrapping_sub(start) as usize;
                seen[slot] += 1;
                offset += task.stride as u64;
            }
        }
        assert!(seen.iter().all(|c| *c == 1));
    }
}

#[test]
fn score_reaches_thresholds() {
    assert!(score_reaches(9, 28, 400));
    assert!(!score_reaches(8, 28, 400));
    assert!(score_reaches(0, 28, 0));
    assert!(score_reaches(0, 1, 1));
    assert!(!score_reaches(0, 1, 2));
    assert!(score_reaches(61, usize::MAX, u32::MAX));
    assert!(!score_reaches(60, usize::MAX, u32::MAX));
    assert!(score_reaches(243, usize::MAX, u32::MAX));
}

#[test]
fn overlay_writes_little_endian() {
    let buffer = vec![9u8; 10];
    let r = with_nonce(&buffer, 0x0102_0304_0506_0708);
    assert_eq!(r, vec![9, 9, 8, 7, 6, 5, 4, 3, 2, 1]);
    assert_eq!(buffer, vec![9u8; 10]);
    assert_eq!(with_nonce(&vec![0u8; 8], u64::MAX), vec![255u8; 8]);
}

#[test]
fn halves_round_trip() {
    assert_eq!(nonce_halves(0x1122_3344_5566_7788), (0x5566_7788, 0x1122_3344));
    assert_eq!(nonce_from_halves(0x5566_7788, 0x1122_3344), 0x1122_3344_5566_7788);
    assert_eq!(nonce_halves(u64::MAX), (u32::MAX, u32::MAX));
    assert_eq!(nonce_halves(0), (0, 0));
}
