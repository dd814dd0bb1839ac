//! What the library takes as given of the channels that tie the pool, its threads and the
//! callers together.
//!
//! A channel's traffic depends on what other threads do, so none of these items says what a call
//! returns on a given channel. Contracts elsewhere name the call itself, through `call_ensures`:
//! the value they speak of is the one that this very call, on these very arguments, gave back.
use tokio::sync::{mpsc, oneshot};
use vstd::prelude::*;

verus! {

/// The sending half of a `tokio` channel that carries one value.
#[verifier::external_type_specification]
#[verifier::external_body]
#[verifier::reject_recursive_types(T)]
pub struct ExOneshotSender<T>(oneshot::Sender<T>);

/// The receiving half of a `tokio` channel that carries one value.
#[verifier::external_type_specification]
#[verifier::external_body]
#[verifier::reject_recursive_types(T)]
pub struct ExOneshotReceiver<T>(oneshot::Receiver<T>);

/// What waiting on a `tokio` one-value channel gives when the sender is gone.
#[verifier::external_type_specification]
#[verifier::external_body]
pub struct ExOneshotRecvError(oneshot::error::RecvError);

/// `tokio::sync::oneshot::channel` makes the two halves of a fresh channel. Nothing is stated of
/// the halves: what they do later is up to their owners.
pub assume_specification<T>[ oneshot::channel::<T> ]() -> (r: (
    oneshot::Sender<T>,
    oneshot::Receiver<T>,
));

/// `tokio::sync::oneshot::Sender::send` never waits. When the other half is gone it hands back
/// the value it was given; whether that is so depends on the other half.
pub assume_specification<T>[ oneshot::Sender::<T>::send ](sender: oneshot::Sender<T>, t: T) -> (r:
    Result<(), T>)
    ensures
        r matches Err(back) ==> back == t,
;

/// The sending half of a bounded `tokio` channel.
#[verifier::external_type_specification]
#[verifier::external_body]
#[verifier::reject_recursive_types(T)]
pub struct ExMpscSender<T>(mpsc::Sender<T>);

/// The receiving half of a bounded `tokio` channel.
#[verifier::external_type_specification]
#[verifier::external_body]
#[verifier::reject_recursive_types(T)]
pub struct ExMpscReceiver<T>(mpsc::Receiver<T>);

/// `tokio::sync::mpsc::channel` makes the two halves of a fresh channel that buffers up to
/// `buffer` values. It panics on a buffer of none and on one of more than an eighth of what a
/// `usize` can count.
pub assume_specification<T>[ mpsc::channel::<T> ](buffer: usize) -> (r: (
    mpsc::Sender<T>,
    mpsc::Receiver<T>,
))
    requires
        0 < buffer <= usize::MAX / 8,
;

/// `Clone` for `tokio::sync::mpsc::Sender`: a second handle of the same channel, which is all
/// there is to tell one handle from another.
pub assume_specification<T>[ <mpsc::Sender<T> as Clone>::clone ](sender: &mpsc::Sender<T>) -> (r:
    mpsc::Sender<T>)
    ensures
        r == *sender,
;

/// The sending half of a `flume` channel.
#[verifier::external_type_specification]
#[verifier::external_body]
#[verifier::reject_recursive_types(T)]
pub struct ExFlumeSender<T>(flume::Sender<T>);

/// The receiving half of a `flume` channel.
#[verifier::external_type_specification]
#[verifier::external_body]
#[verifier::reject_recursive_types(T)]
pub struct ExFlumeReceiver<T>(flume::Receiver<T>);

/// `flume::bounded` makes the two halves of a fresh channel that buffers up to `cap` values.
pub assume_specification<T>[ flume::bounded::<T> ](cap: usize) -> (r: (
    flume::Sender<T>,
    flume::Receiver<T>,
));

/// `flume::Sender::is_full` tells whether the channel holds as many values as it can at the
/// moment of the call; other threads may have changed that since.
pub assume_specification<T>[ flume::Sender::<T>::is_full ](sender: &flume::Sender<T>) -> (r: bool);

/// `flume::Sender::is_empty` tells whether the channel holds no value at the moment of the call;
/// other threads may have changed that since.
pub assume_specification<T>[ flume::Sender::<T>::is_empty ](sender: &flume::Sender<T>) -> (r: bool);

/// `Clone` for `flume::Receiver`: a second handle of the same channel, which is all there is to
/// tell one handle from another.
pub assume_specification<T>[ <flume::Receiver<T> as Clone>::clone ](
    receiver: &flume::Receiver<T>,
) -> (r: flume::Receiver<T>)
    ensures
        r == *receiver,
;

} // verus!
