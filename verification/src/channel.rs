//! The channels between the discovery work and the watches.
//!
//! Both kinds of channel are `futures::sync::mpsc` unbounded channels. What a sender has been
//! asked to send, and whether the channel took it, is the sender's log; a sender and the receiver
//! that was made with it are tied by `feeds` and `serves`.
use crate::authority::DnsNameAndPort;
use crate::labels::Update;
use futures::sync::mpsc::{UnboundedReceiver, UnboundedSender};
use vstd::prelude::*;

verus! {

/// `futures::sync::mpsc::UnboundedSender`, opaque.
#[verifier::external_type_specification]
#[verifier::external_body]
#[verifier::reject_recursive_types(T)]
pub struct ExUnboundedSender<T>(futures::sync::mpsc::UnboundedSender<T>);

/// `futures::sync::mpsc::UnboundedReceiver`, opaque.
#[verifier::external_type_specification]
#[verifier::external_body]
#[verifier::reject_recursive_types(T)]
pub struct ExUnboundedReceiver<T>(futures::sync::mpsc::UnboundedReceiver<T>);

/// The log of a watch's sender: each update that was handed to it, oldest first, and whether the
/// channel took it.
pub uninterp spec fn posted(tx: UnboundedSender<Update>) -> Seq<(Update, bool)>;

/// Whether what `tx` sends arrives at `rx`.
pub uninterp spec fn feeds(tx: UnboundedSender<Update>, rx: UnboundedReceiver<Update>) -> bool;

/// The log of a sender of watch requests: each request that was handed to it, oldest first, and
/// whether the channel took it.
pub uninterp spec fn requested(
    tx: UnboundedSender<(DnsNameAndPort, UnboundedSender<Update>)>,
) -> Seq<((DnsNameAndPort, UnboundedSender<Update>), bool)>;

/// Whether the requests that `tx` sends arrive at `rx`.
pub uninterp spec fn serves(
    tx: UnboundedSender<(DnsNameAndPort, UnboundedSender<Update>)>,
    rx: UnboundedReceiver<(DnsNameAndPort, UnboundedSender<Update>)>,
) -> bool;

/// `futures::sync::mpsc::unbounded`, for updates. The two halves belong to one new channel, on
/// which nothing has been sent.
#[verifier::external_body]
pub(crate) fn update_channel() -> (r: (UnboundedSender<Update>, UnboundedReceiver<Update>))
    ensures
        posted(r.0) == Seq::<(Update, bool)>::empty(),
        feeds(r.0, r.1),
{
    futures::sync::mpsc::unbounded()
}

/// `futures::sync::mpsc::unbounded`, for watch requests. The two halves belong to one new
/// channel, on which nothing has been sent.
#[verifier::external_body]
pub(crate) fn request_channel() -> (r: (
    UnboundedSender<(DnsNameAndPort, UnboundedSender<Update>)>,
    UnboundedReceiver<(DnsNameAndPort, UnboundedSender<Update>)>,
))
    ensures
        requested(r.0) == Seq::<((DnsNameAndPort, UnboundedSender<Update>), bool)>::empty(),
        serves(r.0, r.1),
{
    futures::sync::mpsc::unbounded()
}

/// `futures::sync::mpsc::UnboundedSender::unbounded_send`, for updates. The call hands the update
/// to the channel that the sender belongs to; a refused update comes back. Whether the channel is
/// still open is not up to the sender, so the outcome is left open. Left unsaid too: the call
/// panics where the receiver panicked while it was being polled, and where as many updates wait
/// in the channel as it can count.
#[verifier::external_body]
pub(crate) fn send_update(tx: &mut UnboundedSender<Update>, update: Update) -> (r: Result<
    (),
    Update,
>)
    ensures
        posted(*final(tx)) == posted(*old(tx)).push((update, r is Ok)),
        forall|rx: UnboundedReceiver<Update>|
            #[trigger] feeds(*final(tx), rx) == feeds(*old(tx), rx),
        r matches Err(refused) ==> refused == update,
{
    match tx.unbounded_send(update) {
        Ok(()) => Ok(()),
        Err(refused) => Err(refused.into_inner()),
    }
}

/// `futures::sync::mpsc::UnboundedSender::unbounded_send`, for watch requests. The call hands the
/// request to the channel that the sender belongs to; a refused request comes back. As with
/// updates, the outcome is left open, and the same two panics are left unsaid.
#[verifier::external_body]
pub(crate) fn send_request(
    tx: &mut UnboundedSender<(DnsNameAndPort, UnboundedSender<Update>)>,
    request: (DnsNameAndPort, UnboundedSender<Update>),
) -> (r: Result<(), (DnsNameAndPort, UnboundedSender<Update>)>)
    ensures
        requested(*final(tx)) == requested(*old(tx)).push((request, r is Ok)),
        forall|rx: UnboundedReceiver<(DnsNameAndPort, UnboundedSender<Update>)>|
            #[trigger] serves(*final(tx), rx) == serves(*old(tx), rx),
        r matches Err(refused) ==> refused == request,
{
    match tx.unbounded_send(request) {
        Ok(()) => Ok(()),
        Err(refused) => Err(refused.into_inner()),
    }
}

/// `futures::sync::mpsc::UnboundedSender::clone`, for watch requests. The clone sends into the
/// same channel, and nothing has been handed to it yet. Left unsaid: the call panics where a
/// channel has more senders than can be counted.
#[verifier::external_body]
pub(crate) fn another_sender(
    tx: &UnboundedSender<(DnsNameAndPort, UnboundedSender<Update>)>,
) -> (r: UnboundedSender<(DnsNameAndPort, UnboundedSender<Update>)>)
    ensures
        requested(r) == Seq::<((DnsNameAndPort, UnboundedSender<Update>), bool)>::empty(),
        forall|rx: UnboundedReceiver<(DnsNameAndPort, UnboundedSender<Update>)>|
            #[trigger] serves(r, rx) == serves(*tx, rx),
{
    tx.clone()
}

/// Whether `after` is the sender `before` once it has been asked to send `update`: the log grew by
/// the update and an outcome, and the channel is the same.
pub open spec fn attempted(
    before: UnboundedSender<Update>,
    update: Update,
    after: UnboundedSender<Update>,
) -> bool {
    &&& exists|taken: bool| #[trigger] posted(before).push((update, taken)) == posted(after)
    &&& forall|rx: UnboundedReceiver<Update>| #[trigger] feeds(after, rx) == feeds(before, rx)
}

/// Whether the channel took the last update that was handed to `tx`.
pub open spec fn taken_last(tx: UnboundedSender<Update>) -> bool {
    posted(tx).len() > 0 && posted(tx).last().1
}

} // verus!
