//! Generic broadcast hub.
//!
//! [`BroadcastHub`] is a typed broadcast channel with a connection counter. It is
//! cheap to clone: all clones share the same channel and counter.
use crate::channel::{counted_receivers, handed, opened_with, subscribed, valid_capacity};
use crate::config::WsConfig;
use crate::counter::{attempt, loaded, made_at, went_down, went_up, ConnectionCounter};
use crate::error::WsError;
use tokio::sync::broadcast;
use tokio::sync::broadcast::error::SendError;
use tokio::sync::broadcast::{Receiver, Sender};
use vstd::prelude::*;

verus! {

/// `<Sender as Clone>::clone` makes another handle to the same channel.
#[verifier::external_body]
fn another<T>(tx: &Sender<T>) -> (r: Sender<T>)
    ensures
        r == *tx,
{
    tx.clone()
}

/// What a broadcast returns, given what the channel made of it.
pub fn delivery<T>(outcome: Result<usize, T>) -> (r: Result<usize, WsError>)
    ensures
        r == match outcome {
            Ok(n) => Ok::<usize, WsError>(n),
            Err(_) => Err(WsError::BroadcastFull),
        },
{
    match outcome {
        Ok(n) => Ok(n),
        Err(_) => Err(WsError::BroadcastFull),
    }
}

/// The number of receivers that a message reached, given what the channel made
/// of it.
pub fn reached<T>(outcome: Result<usize, T>) -> (r: usize)
    ensures
        r == match outcome {
            Ok(n) => n,
            Err(_) => 0,
        },
{
    match outcome {
        Ok(n) => n,
        Err(_) => 0,
    }
}

/// A typed broadcast hub for WebSocket messages.
#[derive(Debug)]
#[verifier::reject_recursive_types(T)]
pub struct BroadcastHub<T> {
    tx: Sender<T>,
    capacity: usize,
    connections: ConnectionCounter,
}

impl<T> Clone for BroadcastHub<T> {
    fn clone(&self) -> (r: Self)
        ensures
            r.channel() == self.channel(),
            r.size() == self.size(),
            r.counter() == self.counter(),
    {
        BroadcastHub {
            tx: another(&self.tx),
            capacity: self.capacity,
            connections: self.connections.clone(),
        }
    }
}

impl<T> BroadcastHub<T> {
    /// The channel of this hub.
    pub closed spec fn channel(&self) -> Sender<T> {
        self.tx
    }

    /// The capacity that the channel of this hub was made with.
    pub closed spec fn size(&self) -> usize {
        self.capacity
    }

    /// The connection counter of this hub.
    pub closed spec fn counter(&self) -> ConnectionCounter {
        self.connections
    }
}

impl<T> BroadcastHub<T> where T: Clone {
    /// Create a new hub with the given broadcast capacity.
    pub fn new(capacity: usize) -> (r: Self)
        requires
            valid_capacity(capacity),
        ensures
            opened_with(r.channel(), capacity),
            r.size() == capacity,
            made_at(r.counter().cell(), 0),
    {
        let (tx, _rx) = broadcast::channel::<T>(capacity);
        BroadcastHub { tx, capacity, connections: ConnectionCounter::new() }
    }

    /// Create a hub from [`WsConfig`].
    pub fn from_config(config: &WsConfig) -> (r: Self)
        requires
            valid_capacity(config.broadcast_capacity),
        ensures
            opened_with(r.channel(), config.broadcast_capacity),
            r.size() == config.broadcast_capacity,
            made_at(r.counter().cell(), 0),
    {
        Self::new(config.broadcast_capacity)
    }

    /// Create a hub with the given broadcast capacity.
    pub fn with_capacity(capacity: usize) -> (r: Self)
        requires
            valid_capacity(capacity),
        ensures
            opened_with(r.channel(), capacity),
            r.size() == capacity,
            made_at(r.counter().cell(), 0),
    {
        Self::new(capacity)
    }
}

// What follows needs no copies of messages and can make none: a message that comes
// in goes out once.
impl<T> BroadcastHub<T> {
    /// Subscribe to the broadcast channel.
    pub fn subscribe(&self) -> (r: Receiver<T>)
        ensures
            subscribed(self.channel(), r),
    {
        self.tx.subscribe()
    }

    /// Broadcast a message to all subscribers.
    ///
    /// Returns the number of receivers that received the message, or
    /// [`WsError::BroadcastFull`] if there are none.
    pub fn broadcast(&self, msg: T) -> (r: Result<usize, WsError>)
        ensures
            match r {
                Ok(n) => n >= 1,
                Err(e) => e is BroadcastFull,
            },
            exists|outcome: Result<usize, SendError<T>>| #[trigger]
                handed(self.channel(), msg, outcome) && r == match outcome {
                    Ok(n) => Ok::<usize, WsError>(n),
                    Err(_) => Err(WsError::BroadcastFull),
                },
    {
        let outcome = self.tx.send(msg);
        assert(handed(self.channel(), msg, outcome));
        delivery(outcome)
    }

    /// Try to broadcast, returning 0 when there are no receivers instead of an
    /// error.
    pub fn try_broadcast(&self, msg: T) -> (r: usize)
        ensures
            exists|outcome: Result<usize, SendError<T>>| #[trigger]
                handed(self.channel(), msg, outcome) && r == match outcome {
                    Ok(n) => n,
                    Err(_) => 0,
                },
    {
        let outcome = self.tx.send(msg);
        assert(handed(self.channel(), msg, outcome));
        reached(outcome)
    }

    /// Current number of tracked connections.
    pub fn connection_count(&self) -> (r: u64)
        ensures
            loaded(self.counter().cell(), r),
    {
        self.connections.get()
    }

    /// Atomically increment the connection counter. Returns the new count.
    ///
    /// If `max` is `Some`, returns [`WsError::TooManyConnections`] when the limit
    /// would be exceeded and does not increment.
    pub fn increment_connections(&self, max: Option<usize>) -> (r: Result<u64, WsError>)
        ensures
            went_up(self.counter().cell(), max, r),
            r is Err ==> max is Some,
            r matches Ok(n) ==> (max matches Some(limit) ==> 1 <= n <= limit),
    {
        self.connections.increment(max)
    }

    /// Atomically decrement the connection counter (saturating).
    pub fn decrement_connections(&self) -> (r: u64)
        ensures
            went_down(self.counter().cell(), r),
    {
        self.connections.decrement()
    }

    /// Number of active receivers.
    pub fn receiver_count(&self) -> (r: usize)
        ensures
            counted_receivers(self.channel(), r),
    {
        self.tx.receiver_count()
    }

    /// Channel capacity.
    pub fn capacity(&self) -> (r: usize)
        ensures
            r == self.size(),
    {
        self.capacity
    }

    /// Internal sender handle (for advanced use).
    pub fn sender(&self) -> (r: &Sender<T>)
        ensures
            *r == self.channel(),
    {
        &self.tx
    }
}

/// Under the limit of a configuration, a connection gets in exactly while fewer
/// than `max_connections` are there; with a limit of zero it always does.
pub proof fn law_configured_limit(config: WsConfig, count: u64)
    ensures
        attempt(config.limit(), count) is Ok <==> config.max_connections == 0 || count
            < config.max_connections,
{
}

/// A broadcast hands its message to the channel of the hub, and returns the number of
/// receivers that it reached there, or that there was none. This holds of messages of
/// every type, also of one whose values cannot be copied: the one message that is
/// given is the one that goes out.
pub proof fn law_broadcast_hands_on_its_message<T>(
    hub: BroadcastHub<T>,
    msg: T,
    r: Result<usize, WsError>,
    n: usize,
)
    requires
        call_ensures(BroadcastHub::<T>::broadcast, (&hub, msg), r),
        call_ensures(BroadcastHub::<T>::try_broadcast, (&hub, msg), n),
    ensures
        exists|outcome: Result<usize, SendError<T>>| #[trigger]
            call_ensures(Sender::<T>::send, (&hub.channel(), msg), outcome) && match outcome {
                Ok(reached) => r == Ok::<usize, WsError>(reached),
                Err(_) => r == Err::<usize, WsError>(WsError::BroadcastFull),
            },
        exists|outcome: Result<usize, SendError<T>>| #[trigger]
            call_ensures(Sender::<T>::send, (&hub.channel(), msg), outcome) && match outcome {
                Ok(reached) => n == reached,
                Err(_) => n == 0,
            },
{
    let outcome = choose|outcome: Result<usize, SendError<T>>| #[trigger]
        handed(hub.channel(), msg, outcome) && r == match outcome {
            Ok(n) => Ok::<usize, WsError>(n),
            Err(_) => Err(WsError::BroadcastFull),
        };
    assert(call_ensures(Sender::<T>::send, (&hub.channel(), msg), outcome));
    let other = choose|outcome: Result<usize, SendError<T>>| #[trigger]
        handed(hub.channel(), msg, outcome) && n == match outcome {
            Ok(n) => n,
            Err(_) => 0,
        };
    assert(call_ensures(Sender::<T>::send, (&hub.channel(), msg), other));
}

/// A subscriber is one of the channel that broadcasts go to, and receivers are
/// counted there.
pub proof fn law_subscribers_are_of_the_channel<T>(
    hub: BroadcastHub<T>,
    rx: Receiver<T>,
    n: usize,
    tx: &Sender<T>,
)
    requires
        call_ensures(BroadcastHub::<T>::subscribe, (&hub,), rx),
        call_ensures(BroadcastHub::<T>::receiver_count, (&hub,), n),
        call_ensures(BroadcastHub::<T>::sender, (&hub,), tx),
    ensures
        call_ensures(Sender::<T>::subscribe, (&hub.channel(),), rx),
        call_ensures(Sender::<T>::receiver_count, (&hub.channel(),), n),
        *tx == hub.channel(),
{
}

/// A hub is made with the capacity that it tells, and so are its clones, which have
/// its channel and its counter.
pub proof fn law_hubs_are_made_as_told<T: Clone>(
    capacity: usize,
    config: WsConfig,
    hubs: (BroadcastHub<T>, BroadcastHub<T>, BroadcastHub<T>),
    clone: BroadcastHub<T>,
    n: (usize, usize, usize, usize),
)
    requires
        call_ensures(BroadcastHub::<T>::new, (capacity,), hubs.0),
        call_ensures(BroadcastHub::<T>::with_capacity, (capacity,), hubs.1),
        call_ensures(BroadcastHub::<T>::from_config, (&config,), hubs.2),
        call_ensures(<BroadcastHub<T> as Clone>::clone, (&hubs.0,), clone),
        call_ensures(BroadcastHub::<T>::capacity, (&hubs.0,), n.0),
        call_ensures(BroadcastHub::<T>::capacity, (&hubs.1,), n.1),
        call_ensures(BroadcastHub::<T>::capacity, (&hubs.2,), n.2),
        call_ensures(BroadcastHub::<T>::capacity, (&clone,), n.3),
    ensures
        n.0 == capacity,
        n.1 == capacity,
        n.2 == config.broadcast_capacity,
        n.3 == capacity,
        clone.channel() == hubs.0.channel(),
        clone.counter().cell() == hubs.0.counter().cell(),
        exists|rx: Receiver<T>| #[trigger]
            call_ensures(broadcast::channel::<T>, (capacity,), (hubs.0.channel(), rx)),
        exists|rx: Receiver<T>| #[trigger]
            call_ensures(broadcast::channel::<T>, (capacity,), (hubs.1.channel(), rx)),
        exists|rx: Receiver<T>| #[trigger]
            call_ensures(
                broadcast::channel::<T>,
                (config.broadcast_capacity,),
                (hubs.2.channel(), rx),
            ),
{
}

/// What came of a send is told as it is.
pub proof fn law_outcomes_are_told<T>(
    outcome: Result<usize, T>,
    r: Result<usize, WsError>,
    n: usize,
)
    requires
        call_ensures(delivery::<T>, (outcome,), r),
        call_ensures(reached::<T>, (outcome,), n),
    ensures
        outcome matches Ok(k) ==> r == Ok::<usize, WsError>(k) && n == k,
        outcome is Err ==> r == Err::<usize, WsError>(WsError::BroadcastFull) && n == 0,
{
}

/// Connections of a hub are counted on the one cell of its counter, as a counter
/// does.
pub proof fn law_hub_counts_on_its_cell<T>(
    hub: BroadcastHub<T>,
    max: Option<usize>,
    up: Result<u64, WsError>,
    down: u64,
    now: u64,
)
    requires
        call_ensures(BroadcastHub::<T>::increment_connections, (&hub, max), up),
        call_ensures(BroadcastHub::<T>::decrement_connections, (&hub,), down),
        call_ensures(BroadcastHub::<T>::connection_count, (&hub,), now),
    ensures
        went_up(hub.counter().cell(), max, up),
        went_down(hub.counter().cell(), down),
        loaded(hub.counter().cell(), now),
{
}

} // verus!
