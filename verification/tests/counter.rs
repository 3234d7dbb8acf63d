use ws_kit::counter::{ConnectionCounter, Step};
use ws_kit::error::WsError;

/// All orders in which the steps of several threads can take effect.
fn interleavings(threads: &[Vec<Step>]) -> Vec<Vec<Step>> {
    if threads.iter().all(|t| t.is_empty()) {
        return vec![Vec::new()];
    }
    let mut out = Vec::new();
    for i in 0..threads.len() {
        if let Some(first) = threads[i].first() {
            let mut rest = threads.to_vec();
            rest[i].remove(0);
            for tail in interleavings(&rest) {
                let mut order = vec![*first];
                order.extend(tail);
                out.push(order);
            }
        }
    }
    out
}

/// Performs the steps on a counter. Returns how many steps up were let in.
fn perform(counter: &ConnectionCounter, steps: &[Step]) -> usize {
    let mut ok = 0;
    for step in steps {
        match step {
            Step::Up(max) => match counter.increment(*max) {
                Ok(_) => ok += 1,
                Err(e) => assert_eq!(e, WsError::TooManyConnections),
            },
            Step::Down => {
                counter.decrement();
            }
        }
    }
    ok
}

#[test]
fn loom_inc_dec_pairs_balance_to_zero() {
    let pair = vec![Step::Up(None), Step::Down];
    let orders = interleavings(&[pair.clone(), pair]);
    assert_eq!(orders.len(), 6);
    for order in orders {
        let counter = ConnectionCounter::new();
        perform(&counter, &order);
        assert_eq!(counter.get(), 0);
    }
}

#[test]
fn loom_increment_respects_limit_under_race() {
    let up = vec![Step::Up(Some(1))];
    for order in interleavings(&[up.clone(), up]) {
        let counter = ConnectionCounter::new();
        assert_eq!(perform(&counter, &order), 1);
        assert_eq!(counter.get(), 1);

        counter.decrement();
        counter.decrement(); // saturating: no underflow
        assert_eq!(counter.get(), 0);
    }
}

#[test]
fn loom_decrement_races_capped_increment_never_under_or_overshoots() {
    for order in interleavings(&[vec![Step::Up(Some(1))], vec![Step::Down]]) {
        let counter = ConnectionCounter::new();
        perform(&counter, &order);
        let final_count = counter.get();
        assert!(
            final_count <= 1,
            "capped increment raced past the limit: {final_count}"
        );
        assert!(
            final_count == 0 || final_count == 1,
            "inc/dec race must land on 0 (dec after inc) or 1 (dec before inc)"
        );
    }
}

#[test]
fn loom_three_way_cas_race_yields_exactly_limit_winners() {
    let up = vec![Step::Up(Some(2))];
    for order in interleavings(&[up.clone(), up.clone(), up]) {
        let counter = ConnectionCounter::new();
        assert_eq!(perform(&counter, &order), 2, "exactly two winners");
        assert_eq!(counter.get(), 2);

        for _ in 0..3 {
            counter.decrement(); // third is a no-op: saturating
        }
        assert_eq!(counter.get(), 0, "teardown must saturate at zero");
    }
}

#[test]
fn steps_by_the_count_they_meet() {
    assert_eq!(Step::Up(None).apply(0), Some(1));
    assert_eq!(Step::Up(None).apply(u64::MAX), Some(0));
    assert_eq!(Step::Up(Some(2)).apply(1), Some(2));
    assert_eq!(Step::Up(Some(2)).apply(2), None);
    assert_eq!(Step::Up(Some(2)).apply(3), None);
    assert_eq!(Step::Down.apply(3), Some(2));
    assert_eq!(Step::Down.apply(0), None);
}

#[test]
fn handles_share_one_count() {
    let counter = ConnectionCounter::new();
    let other = counter.clone();
    assert_eq!(counter.increment(Some(5)), Ok(1));
    assert_eq!(other.increment(Some(5)), Ok(2));
    assert_eq!(other.decrement(), 1);
    assert_eq!(counter.get(), 1);
}

#[test]
fn winners_of_a_race_count_up_to_the_limit() {
    for (attempts, limit, winners) in [(5, 3, vec![1, 2, 3]), (2, 3, vec![1, 2]), (4, 0, vec![])] {
        let counter = ConnectionCounter::new();
        let got: Vec<u64> = (0..attempts)
            .filter_map(|_| counter.increment(Some(limit)).ok())
            .collect();
        assert_eq!(got, winners);
    }
}

#[test]
fn a_decrement_undoes_an_increment() {
    let counter = ConnectionCounter::new();
    assert_eq!(counter.increment(None), Ok(1));
    let before = counter.get();
    assert_eq!(counter.increment(Some(7)), Ok(before + 1));
    assert_eq!(counter.decrement(), before);
    assert_eq!(counter.get(), before);
}
