use gitingest::utils::schedule::{FetchAction, FetchScheduler};

/// Runs the scheduler to the end. Whenever it says to wait, the oldest
/// fetch in flight ends. Returns the largest number of fetches seen in
/// flight and the order in which the fetches were begun.
fn drain(total: usize, limit: usize, batch: usize) -> (usize, Vec<usize>) {
    let mut gate = FetchScheduler::new(total, limit, batch);
    let mut peak = 0;
    let mut order = Vec::new();
    loop {
        match gate.next_action() {
            FetchAction::Start(index) => {
                order.push(index);
                // Nothing of an earlier batch is in flight any more.
                let batch_start = index - index % batch;
                assert!(order.len() - gate.in_flight() >= batch_start);
            }
            FetchAction::Wait => {
                assert!(gate.in_flight() > 0);
                assert!(gate.fetch_finished());
            }
            FetchAction::Done => break,
        }
        peak = peak.max(gate.in_flight());
        assert!(gate.in_flight() <= limit);
        assert!(gate.in_flight() <= batch);
    }
    assert_eq!(gate.in_flight(), 0);
    (peak, order)
}

#[test]
fn in_flight_never_exceeds_the_ceiling() {
    for (total, limit, batch) in
        [(0, 1, 1), (1, 1, 1), (10, 3, 4), (10, 4, 3), (7, 100, 100), (25, 5, 5), (9, 2, 9)]
    {
        let (peak, order) = drain(total, limit, batch);
        assert!(peak <= limit);
        assert_eq!(order, (0..total).collect::<Vec<usize>>());
        if total > 0 {
            assert_eq!(peak, limit.min(batch).min(total));
        }
    }
}

#[test]
fn a_batch_starts_only_when_the_one_before_has_drained() {
    let mut gate = FetchScheduler::new(5, 10, 2);
    assert_eq!(gate.next_action(), FetchAction::Start(0));
    assert_eq!(gate.next_action(), FetchAction::Start(1));
    // The first batch is out; the second has to wait for both.
    assert_eq!(gate.next_action(), FetchAction::Wait);
    assert_eq!(gate.in_flight(), 2);
    assert!(gate.fetch_finished());
    assert_eq!(gate.next_action(), FetchAction::Wait);
    assert!(gate.fetch_finished());
    assert_eq!(gate.next_action(), FetchAction::Start(2));
    assert_eq!(gate.next_action(), FetchAction::Start(3));
    assert_eq!(gate.next_action(), FetchAction::Wait);
    assert!(gate.fetch_finished());
    assert!(gate.fetch_finished());
    assert_eq!(gate.next_action(), FetchAction::Start(4));
    assert_eq!(gate.next_action(), FetchAction::Wait);
    assert!(gate.fetch_finished());
    assert_eq!(gate.next_action(), FetchAction::Done);
    assert_eq!(gate.next_action(), FetchAction::Done);
}

#[test]
fn the_ceiling_holds_inside_a_batch() {
    let mut gate = FetchScheduler::new(4, 2, 100);
    assert_eq!(gate.next_action(), FetchAction::Start(0));
    assert_eq!(gate.next_action(), FetchAction::Start(1));
    assert_eq!(gate.next_action(), FetchAction::Wait);
    assert!(gate.fetch_finished());
    assert_eq!(gate.in_flight(), 1);
    assert_eq!(gate.next_action(), FetchAction::Start(2));
    assert_eq!(gate.in_flight(), 2);
    assert_eq!(gate.next_action(), FetchAction::Wait);
}

#[test]
fn reporting_an_end_with_nothing_in_flight_changes_nothing() {
    let mut gate = FetchScheduler::new(1, 1, 1);
    assert!(!gate.fetch_finished());
    assert_eq!(gate.in_flight(), 0);
    assert_eq!(gate.next_action(), FetchAction::Start(0));
    assert!(gate.fetch_finished());
    assert!(!gate.fetch_finished());
    assert_eq!(gate.next_action(), FetchAction::Done);

    let mut empty = FetchScheduler::new(0, 1000, 500);
    assert_eq!(empty.next_action(), FetchAction::Done);
}
