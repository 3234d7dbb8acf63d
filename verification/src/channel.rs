//! Broadcast channels of `tokio`.
use crate::codec::{Frame, Payload};
use tokio::sync::broadcast;
use tokio::sync::broadcast::error::SendError;
use tokio::sync::broadcast::{Receiver, Sender};
use vstd::prelude::*;

verus! {

/// The sending half of a broadcast channel.
#[verifier::external_type_specification]
#[verifier::external_body]
#[verifier::reject_recursive_types(T)]
pub struct ExSender<T>(Sender<T>);

/// A receiving half of a broadcast channel.
#[verifier::external_type_specification]
#[verifier::external_body]
#[verifier::reject_recursive_types(T)]
pub struct ExReceiver<T>(Receiver<T>);

/// What comes back of a message that found no receiver.
#[verifier::external_type_specification]
#[verifier::external_body]
#[verifier::reject_recursive_types(T)]
pub struct ExSendError<T>(SendError<T>);

/// The capacities that a channel can be made with.
pub open spec fn valid_capacity(capacity: usize) -> bool {
    0 < capacity <= usize::MAX / 2
}

/// Whether a channel can be made with `capacity`.
pub fn is_valid_capacity(capacity: usize) -> (r: bool)
    ensures
        r == valid_capacity(capacity),
{
    0 < capacity && capacity <= usize::MAX / 2
}

/// `tokio::sync::broadcast::channel` makes a channel that keeps the last
/// `capacity` messages for its receivers. It panics on a capacity of zero and on
/// one above half of `usize::MAX`. What the capacity does shows in the receivers
/// alone, and nothing is stated of them.
pub assume_specification<T: Clone>[ tokio::sync::broadcast::channel::<T> ](capacity: usize) -> (
    Sender<T>,
    Receiver<T>,
)
    requires
        valid_capacity(capacity),
;

/// `tokio::sync::broadcast::Sender::send` hands a message to every live receiver
/// and returns their number. Where there is none the message comes back in the
/// error.
pub assume_specification<T>[ tokio::sync::broadcast::Sender::<T>::send ](
    tx: &Sender<T>,
    value: T,
) -> (r: Result<usize, SendError<T>>)
    ensures
        r matches Ok(n) ==> n >= 1,
;

/// `tokio::sync::broadcast::Sender::subscribe` makes a receiver of what is sent
/// from now on. Nothing is stated of the receiver.
pub assume_specification<T>[ tokio::sync::broadcast::Sender::<T>::subscribe ](
    tx: &Sender<T>,
) -> Receiver<T>;

/// `tokio::sync::broadcast::Sender::receiver_count` counts the live receivers.
/// Receivers come and go elsewhere, so nothing is known of the number.
pub assume_specification<T>[ tokio::sync::broadcast::Sender::<T>::receiver_count ](
    tx: &Sender<T>,
) -> usize;

/// Whether `tx` is the sending half of a channel that was made with `capacity`.
pub open spec fn opened_with<T: Clone>(tx: Sender<T>, capacity: usize) -> bool {
    exists|rx: Receiver<T>| #[trigger]
        call_ensures(broadcast::channel::<T>, (capacity,), (tx, rx))
}

/// Whether `outcome` is what came of handing `msg` to the channel of `tx`.
pub open spec fn handed<T>(
    tx: Sender<T>,
    msg: T,
    outcome: Result<usize, SendError<T>>,
) -> bool {
    call_ensures(Sender::<T>::send, (&tx, msg), outcome)
}

/// Whether `r` tells what came of handing `frame` to the channel of `tx`: the same
/// number of receivers, or that there was none.
pub open spec fn came_of(tx: Sender<Frame>, frame: Frame, r: Result<usize, ()>) -> bool {
    exists|outcome: Result<usize, SendError<Frame>>| #[trigger]
        handed(tx, frame, outcome) && r == match outcome {
            Ok(n) => Ok::<usize, ()>(n),
            Err(_) => Err(()),
        }
}

/// Whether `rx` is a receiver that the channel of `tx` gave out.
pub open spec fn subscribed<T>(tx: Sender<T>, rx: Receiver<T>) -> bool {
    call_ensures(Sender::<T>::subscribe, (&tx,), rx)
}

/// Whether the channel of `tx` counted `n` live receivers.
pub open spec fn counted_receivers<T>(tx: Sender<T>, n: usize) -> bool {
    call_ensures(Sender::<T>::receiver_count, (&tx,), n)
}

/// The frames that the library sent through a handle and that found a receiver,
/// in order.
pub uninterp spec fn sent(tx: Sender<Frame>) -> Seq<Payload>;

/// The capacity that a channel was made with.
pub uninterp spec fn made_with(tx: Sender<Frame>) -> usize;

/// `tokio::sync::broadcast::channel` makes a channel that keeps the last
/// `capacity` frames for its receivers. The receiver that comes with it is
/// dropped. It panics on a capacity of zero and on one above half of
/// `usize::MAX`.
#[verifier::external_body]
pub(crate) fn frame_channel(capacity: usize) -> (r: Sender<Frame>)
    requires
        valid_capacity(capacity),
    ensures
        made_with(r) == capacity,
        sent(r).len() == 0,
{
    broadcast::channel(capacity).0
}

/// `tokio::sync::broadcast::Sender::send` hands a frame to every live receiver
/// and returns their number. Where there is none the frame goes nowhere. The
/// result is what that call makes of this frame on this channel.
#[verifier::external_body]
pub(crate) fn send_frame(tx: &mut Sender<Frame>, frame: Frame) -> (r: Result<usize, ()>)
    ensures
        made_with(*final(tx)) == made_with(*old(tx)),
        came_of(*old(tx), frame, r),
        match r {
            Ok(n) => n >= 1 && sent(*final(tx)) == sent(*old(tx)).push(frame@),
            Err(_) => sent(*final(tx)) == sent(*old(tx)),
        },
{
    tx.send(frame).map_err(|_| ())
}

/// A channel can be made with any capacity from one to half of `usize::MAX`.
pub proof fn law_valid_capacities(capacity: usize, r: bool)
    requires
        call_ensures(is_valid_capacity, (capacity,), r),
    ensures
        r <==> 1 <= capacity && capacity <= usize::MAX / 2,
{
}

} // verus!
