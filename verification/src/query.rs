//! The query to the destination service that is open for a name.
use crate::authority::DnsNameAndPort;
use crate::pb::{Destination, PbUpdate};
use vstd::prelude::*;

verus! {

/// Where the query for a name stands.
#[derive(Debug)]
pub enum DestinationServiceQuery<W, S> {
    NeedsReconnect,
    ConnectedOrConnecting { rx: UpdateRx<W, S> },
}

/// Receiver for destination set updates.
///
/// A query is answered with a response that is waited for first and carries the stream of updates,
/// so this is the state of the call: either the response is still awaited, or there is a stream.
#[derive(Debug)]
pub enum UpdateRx<W, S> {
    Waiting(W),
    Streaming(S),
}

/// Where an `UpdateRx` failed: at the response, or on the stream.
#[derive(Clone, Copy, Debug, PartialEq, Eq)]
pub enum RxError {
    Future,
    Stream,
}

/// What came of polling the response, or the stream, that an `UpdateRx` holds.
#[derive(Debug)]
pub enum RxEvent<W, S> {
    /// The response is here, and with it the stream.
    Response(S),
    /// The response is not here yet.
    ResponseNotReady(W),
    /// There will be no response.
    ResponseFailed,
    /// The stream has an update.
    Item(S, PbUpdate),
    /// The stream has nothing yet.
    StreamNotReady(S),
    /// The stream is over.
    StreamEnded,
    /// The stream broke.
    StreamFailed,
}

/// What came of polling an `UpdateRx`.
#[derive(Debug)]
pub enum RxPoll<W, S> {
    /// Nothing yet: it has changed its state, and is to be polled again at once.
    Again(UpdateRx<W, S>),
    /// An update.
    Ready(UpdateRx<W, S>, PbUpdate),
    /// There are no more updates.
    Ended,
    /// Nothing for now.
    NotReady(UpdateRx<W, S>),
    /// It failed.
    Failed(RxError),
}

impl<W, S> UpdateRx<W, S> {
    /// Polls the wrapped response while it is waited for, and the stream once there is one. If the
    /// response is ready, the state changes to `Streaming`, and the stream is polled.
    pub fn poll(event: RxEvent<W, S>) -> (r: RxPoll<W, S>)
        ensures
            r == rx_poll(event),
    {
        match event {
            RxEvent::Response(stream) => RxPoll::Again(UpdateRx::Streaming(stream)),
            RxEvent::ResponseNotReady(response) => RxPoll::NotReady(UpdateRx::Waiting(response)),
            RxEvent::ResponseFailed => RxPoll::Failed(RxError::Future),
            RxEvent::Item(stream, update) => RxPoll::Ready(UpdateRx::Streaming(stream), update),
            RxEvent::StreamNotReady(stream) => RxPoll::NotReady(UpdateRx::Streaming(stream)),
            RxEvent::StreamEnded => RxPoll::Ended,
            RxEvent::StreamFailed => RxPoll::Failed(RxError::Stream),
        }
    }
}

/// What came of polling an `UpdateRx`, by what came of polling what it holds.
pub open spec fn rx_poll<W, S>(event: RxEvent<W, S>) -> RxPoll<W, S> {
    match event {
        RxEvent::Response(stream) => RxPoll::Again(UpdateRx::Streaming(stream)),
        RxEvent::ResponseNotReady(response) => RxPoll::NotReady(UpdateRx::Waiting(response)),
        RxEvent::ResponseFailed => RxPoll::Failed(RxError::Future),
        RxEvent::Item(stream, update) => RxPoll::Ready(UpdateRx::Streaming(stream), update),
        RxEvent::StreamNotReady(stream) => RxPoll::NotReady(UpdateRx::Streaming(stream)),
        RxEvent::StreamEnded => RxPoll::Ended,
        RxEvent::StreamFailed => RxPoll::Failed(RxError::Stream),
    }
}

/// Whether `name` may be what `normalize` makes of an authority in a namespace.
pub open spec fn normalizes<N: Fn(&DnsNameAndPort, &str) -> Option<String>>(
    normalize: N,
    authority: (Seq<char>, u16),
    namespace: Seq<char>,
    name: Option<Seq<char>>,
) -> bool {
    exists|a: &DnsNameAndPort, ns: &str, n: Option<String>|
        #![trigger call_ensures(normalize, (a, ns), n)]
        {
            &&& a@ == authority
            &&& ns@ == namespace
            &&& call_ensures(normalize, (a, ns), n)
            &&& name == match n {
                Some(n) => Some(n@),
                None => None,
            }
        }
}

/// Whether `normalize` can be asked of any authority.
pub open spec fn normalizes_all<N: Fn(&DnsNameAndPort, &str) -> Option<String>>(
    normalize: N,
) -> bool {
    forall|a: &DnsNameAndPort, ns: &str| #[trigger] call_requires(normalize, (a, ns))
}

/// The request for a normalized name: the scheme is `k8s`, and the path is the name.
pub open spec fn request_to(name: Seq<char>) -> (Seq<char>, Seq<char>) {
    ("k8s"@, name)
}

/// The request that queries the destination service for a normalized name, if there is one.
pub fn request_for(name: Option<String>) -> (r: Option<Destination>)
    ensures
        r is Some <==> name is Some,
        r matches Some(request) ==> request@ == request_to(name->0@),
{
    match name {
        Some(path) => Some(Destination { scheme: "k8s".to_owned(), path }),
        None => None,
    }
}

/// The request that queries the destination service for an authority. The authority's host is
/// normalized first; where it is not of a form suitable for a query, there is no request.
pub fn connect_maybe<N>(
    default_destination_namespace: &str,
    authority: &DnsNameAndPort,
    normalize: &N,
) -> (r: Option<Destination>)
    where N: Fn(&DnsNameAndPort, &str) -> Option<String>
    requires
        normalizes_all(*normalize),
    ensures
        match r {
            Some(request) => exists|name: Seq<char>| #[trigger]
                normalizes(
                    *normalize,
                    authority@,
                    default_destination_namespace@,
                    Some(name),
                ) && request@ == request_to(name),
            None => normalizes(*normalize, authority@, default_destination_namespace@, None),
        },
{
    let name = normalize(authority, default_destination_namespace);
    assert(call_ensures(*normalize, (authority, default_destination_namespace), name));
    assert(normalizes(
        *normalize,
        authority@,
        default_destination_namespace@,
        match name {
            Some(n) => Some(n@),
            None => None,
        },
    ));
    request_for(name)
}

} // verus!
