//! A two-way channel between two threads: each end sends values of one type
//! and receives values of another. It is made of two of std's one-way
//! channels, crossed over. What arrives, and when, depends on the thread at
//! the other end, so the contracts here promise nothing about the values
//! received; they say how the halves are crossed over, what each answer of
//! std's channel is turned into, and that a value that cannot be sent comes
//! back.

use vstd::prelude::*;
use std::sync::mpsc::{Receiver, RecvError, SendError, Sender, TryRecvError};

verus! {

/// std's `Sender`, the sending half of a one-way channel. Nothing is known of
/// what it holds.
#[verifier::external_type_specification]
#[verifier::external_body]
#[verifier::reject_recursive_types(T)]
pub struct ExSender<T>(Sender<T>);

/// std's `Receiver`, the receiving half of a one-way channel. Nothing is
/// known of what it holds.
#[verifier::external_type_specification]
#[verifier::external_body]
#[verifier::reject_recursive_types(T)]
pub struct ExReceiver<T>(Receiver<T>);

/// std's `TryRecvError`: why nothing was received without waiting.
#[verifier::external_type_specification]
pub struct ExTryRecvError(TryRecvError);

/// One end of a two-way channel: it sends `S` and receives `R`.
#[verifier::reject_recursive_types(S)]
#[verifier::reject_recursive_types(R)]
pub struct TwoWayChannel<S, R> {
    send: Sender<S>,
    recv: Receiver<R>,
}

/// What an attempt to receive without waiting found.
pub enum TryRecvResult<T> {
    /// A value was waiting.
    Received(T),
    /// Nothing was waiting, and the other end is still there.
    Empty,
    /// Nothing was waiting, and the other end is gone.
    Disconnected,
}

/// Makes the two ends of a two-way channel. What one end sends, the other
/// receives.
pub fn establish<T1, T2>() -> (ends: (TwoWayChannel<T1, T2>, TwoWayChannel<T2, T1>)) {
    cross_over(open_channel::<T1>(), open_channel::<T2>())
}

impl<S, R> TwoWayChannel<S, R> {
    /// Waits for the next value from the other end. `None` once the other end
    /// is gone and nothing is left to receive.
    pub fn recv(&self) -> (received: Option<R>) {
        wait_for(&self.recv).ok()
    }

    /// Sends `s` to the other end. Where the other end is gone the value
    /// comes back.
    pub fn send(&self, s: S) -> (sent: Result<(), S>)
        ensures
            sent matches Err(back) ==> back == s,
    {
        match hand_over(&self.send, s) {
            Ok(()) => Ok(()),
            Err(refused) => Err(refused.0),
        }
    }

    /// Takes the next value from the other end if one is waiting.
    pub fn try_recv(&self) -> (found: TryRecvResult<R>) {
        TryRecvResult::from(look_for(&self.recv))
    }

    /// The half that this end sends into.
    pub closed spec fn sender(&self) -> Sender<S> {
        self.send
    }

    /// The half that this end receives from.
    pub closed spec fn receiver(&self) -> Receiver<R> {
        self.recv
    }
}

/// Makes the two ends of a two-way channel out of two one-way channels, each
/// given as its sending and its receiving half: the first end sends into the
/// first channel and receives from the second, the second end sends into the
/// second channel and receives from the first.
pub fn cross_over<T1, T2>(
    first: (Sender<T1>, Receiver<T1>),
    second: (Sender<T2>, Receiver<T2>),
) -> (ends: (TwoWayChannel<T1, T2>, TwoWayChannel<T2, T1>))
    ensures
        ends.0.sender() == first.0,
        ends.0.receiver() == second.1,
        ends.1.sender() == second.0,
        ends.1.receiver() == first.1,
{
    (
        TwoWayChannel { send: first.0, recv: second.1 },
        TwoWayChannel { send: second.0, recv: first.1 },
    )
}

/// std's `RecvError`: every sender is gone and nothing is left to receive.
#[verifier::external_type_specification]
#[verifier::external_body]
pub struct ExRecvError(RecvError);

/// std's `SendError`: the receiver is gone. It holds the value that could
/// not be sent.
#[verifier::external_type_specification]
#[verifier::reject_recursive_types(T)]
pub struct ExSendError<T>(SendError<T>);

impl<T> From<Result<T, TryRecvError>> for TryRecvResult<T> {
    /// What an attempt to receive found, from what std's channel answered.
    fn from(res: Result<T, TryRecvError>) -> (found: Self) {
        match res {
            Ok(t) => TryRecvResult::Received(t),
            Err(TryRecvError::Empty) => TryRecvResult::Empty,
            Err(TryRecvError::Disconnected) => TryRecvResult::Disconnected,
        }
    }
}

impl<T> vstd::std_specs::convert::FromSpecImpl<Result<T, TryRecvError>> for TryRecvResult<T> {
    open spec fn obeys_from_spec() -> bool {
        true
    }

    open spec fn from_spec(res: Result<T, TryRecvError>) -> Self {
        match res {
            Ok(t) => TryRecvResult::Received(t),
            Err(TryRecvError::Empty) => TryRecvResult::Empty,
            Err(TryRecvError::Disconnected) => TryRecvResult::Disconnected,
        }
    }
}

/// Calls `std::sync::mpsc::channel`.
#[verifier::external_body]
fn open_channel<T>() -> (ends: (Sender<T>, Receiver<T>)) {
    std::sync::mpsc::channel::<T>()
}

/// Calls `Receiver::recv`, which blocks until a value arrives or every sender
/// is gone.
#[verifier::external_body]
fn wait_for<T>(receiver: &Receiver<T>) -> (received: Result<T, RecvError>) {
    receiver.recv()
}

/// Calls `Sender::send`, which fails only when the receiver is gone. The
/// error that it then returns holds the value that was to be sent.
#[verifier::external_body]
fn hand_over<T>(sender: &Sender<T>, value: T) -> (sent: Result<(), SendError<T>>)
    ensures
        sent matches Err(refused) ==> refused.0 == value,
{
    sender.send(value)
}

/// Calls `Receiver::try_recv`, which never blocks.
#[verifier::external_body]
fn look_for<T>(receiver: &Receiver<T>) -> (found: Result<T, TryRecvError>) {
    receiver.try_recv()
}

} // verus!
