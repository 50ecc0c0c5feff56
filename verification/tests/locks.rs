use event_sorcery::locks::MIN_SWEEP_WATERMARK;
use event_sorcery::{PerAggregateLocks, Withdrawal};

#[test]
fn per_aggregate_locks_serializes_same_key() {
    let mut locks = PerAggregateLocks::default();
    let holder = locks.acquire("agg-1");
    let contender = locks.acquire("agg-1");
    assert_eq!(holder, contender);
    assert_eq!(locks.release("agg-1"), Withdrawal::OthersRemain);
    assert_eq!(locks.acquire("agg-1"), contender);
}

#[test]
fn per_aggregate_locks_does_not_block_different_keys() {
    let mut locks = PerAggregateLocks::default();
    let held = locks.acquire("agg-1");
    let other = locks.acquire("agg-2");
    assert_ne!(held, other);
}

#[test]
fn newcomer_joins_the_lock_while_anyone_waits() {
    let mut locks = PerAggregateLocks::default();
    let holder = locks.acquire("K");
    let waiter = locks.acquire("K");
    assert_eq!(locks.release("K"), Withdrawal::OthersRemain);
    let newcomer = locks.acquire("K");
    assert_eq!(holder, waiter);
    assert_eq!(waiter, newcomer);
}

#[test]
fn idle_aggregate_gets_a_lock_that_was_never_handed_out() {
    let mut locks = PerAggregateLocks::default();
    let mut seen = Vec::new();
    for _ in 0..5 {
        let lock = locks.acquire("K");
        assert!(!seen.contains(&lock));
        seen.push(lock);
        assert_eq!(locks.release("K"), Withdrawal::LastOne);
    }
    assert_eq!(locks.len(), 1);
    assert_eq!(locks.acquisitions(), 5);
}

#[test]
fn releasing_what_nobody_holds_does_nothing() {
    let mut locks = PerAggregateLocks::default();
    assert_eq!(locks.release("K"), Withdrawal::Nothing);
    locks.acquire("K");
    assert_eq!(locks.release("K"), Withdrawal::LastOne);
    assert_eq!(locks.release("K"), Withdrawal::Nothing);
    assert_eq!(locks.len(), 1);
}

#[test]
fn table_stays_bounded_under_fresh_ids() {
    let mut locks = PerAggregateLocks::default();
    for request in 0..10_000u32 {
        let id = format!("request-{request}");
        locks.acquire(&id);
        assert_eq!(locks.release(&id), Withdrawal::LastOne);
        assert!(locks.len() as u64 <= MIN_SWEEP_WATERMARK);
    }
}

#[test]
fn sweep_drops_the_idle_and_keeps_the_live() {
    let mut locks = PerAggregateLocks::default();
    let live = locks.acquire("live");
    for idle in 1..MIN_SWEEP_WATERMARK {
        let id = format!("idle-{idle}");
        locks.acquire(&id);
        assert_eq!(locks.release(&id), Withdrawal::LastOne);
    }
    assert_eq!(locks.len() as u64, MIN_SWEEP_WATERMARK);
    locks.acquire("one more");
    assert_eq!(locks.len(), 2);
    assert_eq!(locks.acquire("live"), live);
}

#[test]
fn watermark_grows_with_what_is_in_flight() {
    let mut locks = PerAggregateLocks::default();
    let ids: Vec<String> = (0..MIN_SWEEP_WATERMARK).map(|n| format!("live-{n}")).collect();
    let handed_out: Vec<u64> = ids.iter().map(|id| locks.acquire(id)).collect();
    locks.acquire("one more");
    assert_eq!(locks.len() as u64, MIN_SWEEP_WATERMARK + 1);
    for (id, lock) in ids.iter().zip(&handed_out) {
        assert_eq!(locks.acquire(id), *lock);
    }
    let mut distinct = handed_out.clone();
    distinct.sort_unstable();
    distinct.dedup();
    assert_eq!(distinct.len(), handed_out.len());
}

#[test]
fn table_shrinks_back_after_a_burst() {
    let mut locks = PerAggregateLocks::default();
    let burst: Vec<String> = (0..500).map(|n| format!("burst-{n}")).collect();
    for id in &burst {
        locks.acquire(id);
    }
    assert_eq!(locks.len(), 500);
    for id in &burst {
        assert_eq!(locks.release(id), Withdrawal::LastOne);
    }
    for request in 0..2_000 {
        let id = format!("request-{request}");
        locks.acquire(&id);
        assert_eq!(locks.release(&id), Withdrawal::LastOne);
        assert!(locks.len() <= 1000);
    }
    assert!(locks.len() as u64 <= MIN_SWEEP_WATERMARK);
}
