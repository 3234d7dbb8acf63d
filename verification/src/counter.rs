//! Shared connection counter.
//!
//! The counter moves in atomic [`Step`]s: up, with or without a limit, and down,
//! not below zero. What one step does is a function of the count it meets; what
//! many steps of many threads do follows from the order in which they took
//! effect, whatever it was.
use crate::error::WsError;
use std::sync::atomic::{AtomicU64, Ordering};
use std::sync::Arc;
use vstd::prelude::*;

verus! {

/// One atomic step of the counter.
#[derive(Clone, Copy)]
pub enum Step {
    /// One more, unless the count has reached the limit.
    Up(Option<usize>),
    /// One less, unless the count is zero.
    Down,
}

impl Step {
    /// The count after this step; nothing where the step leaves it alone.
    pub open spec fn next(self, count: u64) -> Option<u64> {
        match self {
            Step::Up(None) => Some(count.wrapping_add(1)),
            Step::Up(Some(limit)) => if count < limit {
                Some((count + 1) as u64)
            } else {
                None
            },
            Step::Down => if count > 0 {
                Some((count - 1) as u64)
            } else {
                None
            },
        }
    }

    /// The count after this step; nothing where the step leaves it alone.
    pub fn apply(&self, count: u64) -> (r: Option<u64>)
        ensures
            r == self.next(count),
    {
        match self {
            Step::Up(None) => Some(count.wrapping_add(1)),
            Step::Up(Some(limit)) => if count < *limit as u64 {
                Some(count + 1)
            } else {
                None
            },
            Step::Down => if count > 0 {
                Some(count - 1)
            } else {
                None
            },
        }
    }
}

/// `AtomicU64::fetch_update` replaces the count by what the step makes of it, in
/// one atomic step, and returns the count that it met: `Ok` where the step
/// changed it, `Err` where it did not.
#[verifier::external_body]
fn update(count: &AtomicU64, step: Step) -> (r: Result<u64, u64>)
    ensures
        match r {
            Ok(met) => step.next(met) is Some,
            Err(met) => step.next(met) is None,
        },
{
    count.fetch_update(Ordering::Relaxed, Ordering::Relaxed, |v| step.apply(v))
}

/// Whether `outcome` is what a step on `cell` came to.
pub closed spec fn stepped(cell: AtomicU64, step: Step, outcome: Result<u64, u64>) -> bool {
    call_ensures(update, (&cell, step), outcome)
}

/// The count that a step met.
pub open spec fn met_by(outcome: Result<u64, u64>) -> u64 {
    match outcome {
        Ok(met) => met,
        Err(met) => met,
    }
}

/// What a step down leaves, by the count it met.
pub open spec fn lowered(count: u64) -> u64 {
    match Step::Down.next(count) {
        Some(n) => n,
        None => 0,
    }
}

/// What an attempt to go up returns, by the count it met.
pub open spec fn attempt(max: Option<usize>, count: u64) -> Result<u64, WsError> {
    match Step::Up(max).next(count) {
        Some(n) => Ok(n),
        None => Err(WsError::TooManyConnections),
    }
}

/// Whether an attempt to go up was made on `cell`, and `r` is what it returns by
/// the count that it met there.
pub open spec fn went_up(cell: AtomicU64, max: Option<usize>, r: Result<u64, WsError>) -> bool {
    exists|outcome: Result<u64, u64>| #[trigger]
        stepped(cell, Step::Up(max), outcome) && r == attempt(max, met_by(outcome))
}

/// Whether a step down was made on `cell`, and `r` is what it leaves of the count
/// that it met there.
pub open spec fn went_down(cell: AtomicU64, r: u64) -> bool {
    exists|outcome: Result<u64, u64>| #[trigger]
        stepped(cell, Step::Down, outcome) && r == lowered(met_by(outcome))
}

/// Connection counter shared between all clones of a hub.
#[derive(Debug)]
pub struct ConnectionCounter {
    inner: Arc<AtomicU64>,
}

impl Clone for ConnectionCounter {
    /// Another handle to the same count.
    fn clone(&self) -> (r: Self)
        ensures
            r == *self,
    {
        ConnectionCounter { inner: Arc::clone(&self.inner) }
    }
}

/// Whether `cell` was made with the count `n` in it.
pub open spec fn made_at(cell: AtomicU64, n: u64) -> bool {
    call_ensures(AtomicU64::new, (n,), cell)
}

/// Whether `n` is what a load of `cell` gave.
pub open spec fn loaded(cell: AtomicU64, n: u64) -> bool {
    call_ensures(AtomicU64::load, (&cell, Ordering::Relaxed), n)
}

impl ConnectionCounter {
    /// The cell that all handles to this count share.
    pub closed spec fn cell(&self) -> AtomicU64 {
        *self.inner
    }

    /// A counter at zero.
    pub fn new() -> (r: Self)
        ensures
            made_at(r.cell(), 0),
    {
        ConnectionCounter { inner: Arc::new(AtomicU64::new(0)) }
    }

    /// Current count.
    pub fn get(&self) -> (r: u64)
        ensures
            loaded(self.cell(), r),
    {
        self.inner.load(Ordering::Relaxed)
    }

    /// Atomically increment the counter. Returns the new count.
    ///
    /// If `max` is `Some`, the count is never allowed to exceed the limit.
    pub fn increment(&self, max: Option<usize>) -> (r: Result<u64, WsError>)
        ensures
            went_up(self.cell(), max, r),
            r is Err ==> max is Some,
            r matches Ok(n) ==> (max matches Some(limit) ==> 1 <= n <= limit),
    {
        let step = Step::Up(max);
        let outcome = update(&self.inner, step);
        assert(stepped(self.cell(), step, outcome));
        match outcome {
            Ok(met) => match step.apply(met) {
                Some(n) => Ok(n),
                None => Err(WsError::TooManyConnections),
            },
            Err(_) => Err(WsError::TooManyConnections),
        }
    }

    /// Atomically decrement the counter, saturating at zero. Returns the new
    /// count.
    pub fn decrement(&self) -> (r: u64)
        ensures
            went_down(self.cell(), r),
    {
        let outcome = update(&self.inner, Step::Down);
        assert(stepped(self.cell(), Step::Down, outcome));
        match outcome {
            Ok(met) => match Step::Down.apply(met) {
                Some(n) => n,
                None => 0,
            },
            Err(_) => 0,
        }
    }
}

/// The count after steps that took effect in this order.
pub open spec fn run(start: u64, steps: Seq<Step>) -> u64
    decreases steps.len(),
{
    if steps.len() == 0 {
        start
    } else {
        let met = run(start, steps.drop_last());
        match steps.last().next(met) {
            Some(n) => n,
            None => met,
        }
    }
}

/// How many of the steps changed the count.
pub open spec fn winners(start: u64, steps: Seq<Step>) -> nat
    decreases steps.len(),
{
    if steps.len() == 0 {
        0
    } else {
        let met = run(start, steps.drop_last());
        winners(start, steps.drop_last()) + if steps.last().next(met) is Some {
            1nat
        } else {
            0
        }
    }
}

/// How many steps go up.
pub open spec fn ups(steps: Seq<Step>) -> nat
    decreases steps.len(),
{
    if steps.len() == 0 {
        0
    } else {
        ups(steps.drop_last()) + if steps.last() is Up {
            1nat
        } else {
            0
        }
    }
}

/// Whether every step up is held to `limit`.
pub open spec fn held_to(steps: Seq<Step>, limit: usize) -> bool {
    forall|i: int|
        0 <= i < steps.len() ==> (#[trigger] steps[i] matches Step::Up(max) ==> max == Some(limit))
}

/// Whether no step up has a limit, and at no time more steps went down than up.
pub open spec fn paired(steps: Seq<Step>) -> bool {
    forall|i: int|
        0 <= i <= steps.len() ==> 2 * ups(#[trigger] steps.take(i)) >= i && (i < steps.len()
            ==> (steps[i] matches Step::Up(max) ==> max is None))
}

/// However steps up and down interleave, the count never exceeds the limit that
/// the steps up are held to.
pub proof fn law_limit_is_never_exceeded(start: u64, steps: Seq<Step>, limit: usize)
    requires
        start <= limit,
        held_to(steps, limit),
    ensures
        run(start, steps) <= limit,
    decreases steps.len(),
{
    if steps.len() > 0 {
        assert forall|i: int| 0 <= i < steps.drop_last().len() implies (
        #[trigger] steps.drop_last()[i] matches Step::Up(max) ==> max == Some(limit)) by {
            assert(steps.drop_last()[i] == steps[i]);
        }
        law_limit_is_never_exceeded(start, steps.drop_last(), limit);
        assert(steps[steps.len() - 1] == steps.last());
    }
}

/// Of steps that race up to a limit from zero, exactly as many win as the limit
/// leaves room for, and the count shows their number.
pub proof fn law_exactly_the_limit_wins(steps: Seq<Step>, limit: usize)
    requires
        held_to(steps, limit),
        forall|i: int| 0 <= i < steps.len() ==> #[trigger] steps[i] is Up,
    ensures
        winners(0, steps) == if steps.len() < limit {
            steps.len()
        } else {
            limit as nat
        },
        run(0, steps) == winners(0, steps),
    decreases steps.len(),
{
    if steps.len() > 0 {
        let earlier = steps.drop_last();
        assert forall|i: int| 0 <= i < earlier.len() implies #[trigger] earlier[i] is Up && (
        earlier[i] matches Step::Up(max) ==> max == Some(limit)) by {
            assert(earlier[i] == steps[i]);
        }
        law_exactly_the_limit_wins(earlier, limit);
        assert(steps[steps.len() - 1] == steps.last());
    }
}

/// Steps up without a limit, each followed at some time by a step down, lose no
/// update: the count is the number of those still up. Where all went down again
/// it is back at zero.
pub proof fn law_pairs_balance(steps: Seq<Step>)
    requires
        paired(steps),
        steps.len() < u64::MAX,
    ensures
        run(0, steps) == 2 * ups(steps) - steps.len(),
    decreases steps.len(),
{
    if steps.len() > 0 {
        let earlier = steps.drop_last();
        let n = steps.len() - 1;
        assert forall|i: int| 0 <= i <= earlier.len() implies 2 * ups(#[trigger] earlier.take(i))
            >= i && (i < earlier.len() ==> (earlier[i] matches Step::Up(max) ==> max is None)) by {
            assert(earlier.take(i) == steps.take(i));
            if i < earlier.len() {
                assert(earlier[i] == steps[i]);
            }
        }
        law_pairs_balance(earlier);
        assert(steps.take(n) == earlier);
        assert(steps.take(steps.len() as int) == steps);
        assert(steps[n] == steps.last());
        assert(run(0, earlier) <= earlier.len()) by {
            lemma_ups_bounded(earlier);
        }
    } else {
        assert(ups(steps) == 0);
    }
}

proof fn lemma_ups_bounded(steps: Seq<Step>)
    ensures
        ups(steps) <= steps.len(),
    decreases steps.len(),
{
    if steps.len() > 0 {
        lemma_ups_bounded(steps.drop_last());
    }
}

/// More steps down than the count stop at zero.
pub proof fn law_teardown_saturates(start: u64, steps: Seq<Step>)
    requires
        forall|i: int| 0 <= i < steps.len() ==> #[trigger] steps[i] is Down,
    ensures
        run(start, steps) == if steps.len() < start {
            start - steps.len()
        } else {
            0
        },
    decreases steps.len(),
{
    if steps.len() > 0 {
        let earlier = steps.drop_last();
        assert forall|i: int| 0 <= i < earlier.len() implies #[trigger] earlier[i] is Down by {
            assert(earlier[i] == steps[i]);
        }
        law_teardown_saturates(start, earlier);
        assert(steps[steps.len() - 1] == steps.last());
    }
}

/// Whether `met` are the counts that steps met which took effect in this order,
/// with nothing else between them.
pub open spec fn met_in_turn(start: u64, steps: Seq<Step>, met: Seq<u64>) -> bool {
    &&& met.len() == steps.len()
    &&& forall|i: int| 0 <= i < met.len() ==> #[trigger] met[i] == run(start, steps.take(i))
}

/// Of steps that race up to a limit from zero, the first ones to take effect
/// return 1, 2 and so on up to the limit, each number once, and all others are
/// refused.
pub proof fn law_winners_count_up(steps: Seq<Step>, limit: usize, met: Seq<u64>)
    requires
        held_to(steps, limit),
        forall|i: int| 0 <= i < steps.len() ==> #[trigger] steps[i] is Up,
        met_in_turn(0, steps, met),
    ensures
        forall|i: int| #![trigger met[i]]
            0 <= i < steps.len() ==> attempt(Some(limit), met[i]) == if i < limit {
                Ok::<u64, WsError>((i + 1) as u64)
            } else {
                Err(WsError::TooManyConnections)
            },
{
    assert forall|i: int| #![trigger met[i]] 0 <= i < steps.len() implies attempt(
        Some(limit),
        met[i],
    ) == if i < limit {
        Ok::<u64, WsError>((i + 1) as u64)
    } else {
        Err(WsError::TooManyConnections)
    } by {
        let earlier = steps.take(i);
        assert forall|j: int| 0 <= j < earlier.len() implies #[trigger] earlier[j] is Up && (
        earlier[j] matches Step::Up(max) ==> max == Some(limit)) by {
            assert(earlier[j] == steps[j]);
        }
        law_exactly_the_limit_wins(earlier, limit);
    }
}

/// A step leaves the count that it returns: one more where it was let in, the same
/// where it was refused, and one less, but not less than zero, where it went down.
pub proof fn law_steps_leave_what_they_return(count: u64, max: Option<usize>)
    requires
        count < u64::MAX,
    ensures
        attempt(max, count) == if max is Some && count >= max->0 {
            Err(WsError::TooManyConnections)
        } else {
            Ok::<u64, WsError>((count + 1) as u64)
        },
        run(count, seq![Step::Up(max)]) == match attempt(max, count) {
            Ok(n) => n,
            Err(_) => count,
        },
        run(count, seq![Step::Down]) == lowered(count),
        lowered(count) == if count == 0 {
            0
        } else {
            count - 1
        },
{
    lemma_one_step(count, Step::Up(max));
    lemma_one_step(count, Step::Down);
}

proof fn lemma_one_step(count: u64, step: Step)
    ensures
        run(count, seq![step]) == match step.next(count) {
            Some(n) => n,
            None => count,
        },
{
    let steps = seq![step];
    assert(steps.drop_last() == Seq::<Step>::empty());
    assert(run(count, steps.drop_last()) == count);
}

/// A step down right behind one that was let in returns one less and restores the
/// count from before.
pub proof fn law_decrement_undoes_increment(count: u64, max: Option<usize>)
    requires
        count < u64::MAX,
        attempt(max, count) is Ok,
    ensures
        lowered(attempt(max, count)->Ok_0) == count,
        run(count, seq![Step::Up(max), Step::Down]) == count,
{
    let steps = seq![Step::Up(max), Step::Down];
    lemma_one_step(count, Step::Up(max));
    assert(steps.drop_last() == seq![Step::Up(max)]);
}

/// A step up adds one, but under a limit only while the count is below it; a step
/// down takes one off, but not from zero.
pub proof fn law_steps(step: Step, count: u64, r: Option<u64>)
    requires
        call_ensures(Step::apply, (&step, count), r),
    ensures
        step == Step::Up(None) && count < u64::MAX ==> r is Some && r->0 == count + 1,
        step == Step::Up(None) && count == u64::MAX ==> r is Some && r->0 == 0,
        step matches Step::Up(Some(limit)) ==> (r is Some <==> count < limit) && (r is Some ==> r->0
            == count + 1),
        step is Down ==> (r is Some <==> count > 0) && (r is Some ==> r->0 == count - 1),
        r == step.next(count),
{
}

/// The outcome of a step on a cell is that of an update of that cell by that step.
proof fn law_steps_are_updates(cell: AtomicU64, step: Step, outcome: Result<u64, u64>)
    ensures
        stepped(cell, step, outcome) <==> call_ensures(update, (&cell, step), outcome),
{
}

/// What `increment` and `decrement` return, by the count that their step met on the
/// cell of the counter, and what `get` reads there.
pub proof fn law_counts_are_those_met(
    counter: ConnectionCounter,
    max: Option<usize>,
    up: Result<u64, WsError>,
    down: u64,
    now: u64,
)
    requires
        call_ensures(ConnectionCounter::increment, (&counter, max), up),
        call_ensures(ConnectionCounter::decrement, (&counter,), down),
        call_ensures(ConnectionCounter::get, (&counter,), now),
    ensures
        exists|outcome: Result<u64, u64>| #[trigger]
            stepped(counter.cell(), Step::Up(max), outcome) && {
                let met = match outcome {
                    Ok(n) => n,
                    Err(n) => n,
                };
                match max {
                    None => up is Ok && (met < u64::MAX ==> up->Ok_0 == met + 1),
                    Some(limit) => if met < limit {
                        up is Ok && up->Ok_0 == met + 1
                    } else {
                        up == Err::<u64, WsError>(WsError::TooManyConnections)
                    },
                }
            },
        exists|outcome: Result<u64, u64>| #[trigger]
            stepped(counter.cell(), Step::Down, outcome) && {
                let met = match outcome {
                    Ok(n) => n,
                    Err(n) => n,
                };
                if met == 0 {
                    down == 0
                } else {
                    down == met - 1
                }
            },
        call_ensures(AtomicU64::load, (&counter.cell(), Ordering::Relaxed), now),
{
    let outcome = choose|outcome: Result<u64, u64>| #[trigger]
        stepped(counter.cell(), Step::Up(max), outcome) && up == attempt(max, met_by(outcome));
    assert(stepped(counter.cell(), Step::Up(max), outcome));
    let other = choose|outcome: Result<u64, u64>| #[trigger]
        stepped(counter.cell(), Step::Down, outcome) && down == lowered(met_by(outcome));
    assert(stepped(counter.cell(), Step::Down, other));
}

} // verus!
