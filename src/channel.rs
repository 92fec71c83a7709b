use vstd::prelude::*;

use crossbeam::channel::{Receiver, Sender};

verus! {

/// crossbeam's sending end of a channel, carried through opaque.
#[verifier::external_type_specification]
#[verifier::external_body]
#[verifier::reject_recursive_types(T)]
pub struct ExSender<T>(crossbeam::channel::Sender<T>);

/// crossbeam's receiving end of a channel, carried through opaque.
#[verifier::external_type_specification]
#[verifier::external_body]
#[verifier::reject_recursive_types(T)]
pub struct ExReceiver<T>(crossbeam::channel::Receiver<T>);

/// crossbeam's thread scope, carried through opaque.
#[verifier::external_type_specification]
#[verifier::external_body]
pub struct ExScope<'env>(crossbeam::thread::Scope<'env>);

/// Relies on `Clone for crossbeam::channel::Sender`: another sender on the same
/// channel; nothing is claimed of it.
pub assume_specification<T>[ <crossbeam::channel::Sender<T> as Clone>::clone ](
    s: &crossbeam::channel::Sender<T>,
) -> crossbeam::channel::Sender<T>;

/// Relies on `Clone for crossbeam::channel::Receiver`: another receiver on the
/// same channel; nothing is claimed of it.
pub assume_specification<T>[ <crossbeam::channel::Receiver<T> as Clone>::clone ](
    r: &crossbeam::channel::Receiver<T>,
) -> crossbeam::channel::Receiver<T>;

/// The largest capacity `bounded_channel` accepts: above it crossbeam's index
/// arithmetic would overflow.
pub open spec fn max_channel_capacity() -> nat {
    (usize::MAX / 4) as nat
}

/// Relies on `crossbeam::channel::bounded`: a channel that holds at most `cap`
/// messages. It panics only when `cap + 1`, rounded up to a power of two and
/// doubled, overflows, which the bound rules out.
#[verifier::external_body]
pub(crate) fn bounded_channel<T>(cap: usize) -> (r: (Sender<T>, Receiver<T>))
    requires
        cap <= max_channel_capacity(),
{
    crossbeam::channel::bounded(cap)
}

/// How an offer of one message against one pending receive ended.
pub enum Offer<T> {
    /// A message came in on the receiving side.
    Received(T),
    /// The offered message was accepted.
    Sent,
    /// The operation that became ready found its channel disconnected.
    Disconnected,
}

/// Relies on `crossbeam::channel::Select`: blocks until receiving on `incoming`
/// or sending `msg` on `outgoing` can go ahead, then completes exactly one of
/// the two.
#[verifier::external_body]
pub(crate) fn offer<T, U>(incoming: &Receiver<T>, outgoing: &Sender<U>, msg: U) -> (r: Offer<T>) {
    let mut sel = crossbeam::channel::Select::new();
    let receive = sel.recv(incoming);
    sel.send(outgoing);
    let op = sel.select();
    if op.index() == receive {
        match op.recv(incoming) {
            Ok(v) => Offer::Received(v),
            Err(_) => Offer::Disconnected,
        }
    } else {
        match op.send(outgoing, msg) {
            Ok(()) => Offer::Sent,
            Err(_) => Offer::Disconnected,
        }
    }
}

/// Relies on `crossbeam::channel::Sender::try_send`: hands `msg` over if the
/// channel has room right now, and drops it otherwise.
#[verifier::external_body]
pub(crate) fn try_publish<T>(s: &Sender<T>, msg: T) {
    let _ = s.try_send(msg);
}

/// Relies on `crossbeam::channel::Receiver::recv`: blocks for the next message;
/// `None` once the channel is empty and every sender is gone.
#[verifier::external_body]
pub(crate) fn receive<T>(r: &Receiver<T>) -> (m: Option<T>) {
    r.recv().ok()
}

} // verus!
