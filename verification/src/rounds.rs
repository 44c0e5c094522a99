//! What the work does with each event, and what a round of polls comes to.
//!
//! The laws say in plain facts what becomes of the names, their queries, their watches and the
//! queue, and what is asked for next.
use crate::addr::SocketAddr;
use crate::authority::DnsNameAndPort;
use crate::cache::{CacheOp, CacheReply, Exists};
use crate::labels::{Labeled, Update};
use crate::laws::same_channel;
use crate::pb::PbUpdate;
use crate::promises::{
    law_update_is_taken_up, lemma_was_joined, lemma_was_marked, lemma_was_turned_away, was_joined,
    was_marked, was_taken_up, was_turned_away,
};
use crate::query::{
    normalizes, request_to, DestinationServiceQuery, RxEvent, UpdateRx,
};
use crate::set::{applied, gone, joined, marked, SetState, WatchGone};
use crate::work::{
    law_step_keeps_well_formed, needs_reconnect, result_state, Action, ActionState, DiscoveryWork,
    Event, PhaseState, Readiness, WatchPoll, WorkState,
};
use futures::sync::mpsc::UnboundedSender;
use vstd::prelude::*;

verus! {

/// Every call of `poll_rpc` takes a step, and keeps the work well formed.
pub proof fn law_poll_rpc_takes_a_step<
    C,
    W,
    S,
    F: Fn(CacheOp<C>) -> CacheReply<C>,
    V: Fn(&C) -> Vec<Labeled<SocketAddr>>,
    N: Fn(&DnsNameAndPort, &str) -> Option<String>,
>(event: Event<W, S>, run: &F, values: &V, normalize: &N)
    ensures
        forall|work: &mut DiscoveryWork<C, W, S>, r: Result<Action<W, S>, WatchGone>|
            #[trigger] call_ensures(
                DiscoveryWork::<C, W, S>::poll_rpc::<F, V, N>,
                (work, event, run, values, normalize),
                r,
            ) ==> {
                &&& (*work)@.step(
                    event,
                    *run,
                    *values,
                    *normalize,
                    (*final(work))@,
                    result_state(r),
                )
                &&& (*final(work))@.well_formed()
            },
{
}

/// Whether a query is open: its response is waited for, or it streams.
pub open spec fn is_open<W, S>(query: Option<DestinationServiceQuery<W, S>>) -> bool {
    query is Some && query->0 is ConnectedOrConnecting
}

/// Whether the work `u` goes on from the `from`-th name: the first open query from there on is taken
/// out and polled, and none before it is open. Where none is open from there on, the round is over:
/// the work is done, or, where something waits to be reconnected and the destination service is
/// ready, asks again whether it is.
pub open spec fn goes_on<C, W, S>(
    u: WorkState<C, W, S>,
    from: int,
    t: WorkState<C, W, S>,
    r: Result<ActionState<W, S>, WatchGone>,
) -> bool {
    &&& t.namespace == u.namespace
    &&& t.reconnects == u.reconnects
    &&& t.rpc_ready == u.rpc_ready
    &&& t.rx == u.rx
    &&& match r {
        Ok(ActionState::Poll(rx)) => {
            &&& t.phase is Polling
            &&& from <= t.phase->Polling_0 < u.destinations.len()
            &&& u.destinations[t.phase->Polling_0].1.query == Some(
                DestinationServiceQuery::ConnectedOrConnecting { rx },
            )
            &&& t.destinations == u.destinations.update(
                t.phase->Polling_0,
                (
                    u.destinations[t.phase->Polling_0].0,
                    SetState { query: None, ..u.destinations[t.phase->Polling_0].1 },
                ),
            )
            &&& forall|j: int|
                from <= j < t.phase->Polling_0 ==> !is_open((#[trigger] u.destinations[j]).1.query)
        },
        Ok(action) => {
            &&& t.destinations == u.destinations
            &&& forall|j: int|
                from <= j < u.destinations.len() ==> !is_open(
                    (#[trigger] u.destinations[j]).1.query,
                )
            &&& if u.reconnects.len() > 0 && u.rpc_ready {
                action == ActionState::<W, S>::PollReady && t.phase == PhaseState::AwaitReady
            } else {
                action == ActionState::<W, S>::Done && t.phase == PhaseState::Idle
            }
        },
        Err(_) => false,
    }
}

/// The search for a connected query passes over no open one.
proof fn lemma_search<C, W, S>(s: WorkState<C, W, S>, from: int)
    requires
        0 <= from,
    ensures
        match s.next_connected(from) {
            Some(i) => {
                &&& from <= i < s.destinations.len()
                &&& is_open(s.destinations[i].1.query)
                &&& forall|j: int|
                    from <= j < i ==> !is_open((#[trigger] s.destinations[j]).1.query)
            },
            None => forall|j: int|
                from <= j < s.destinations.len() ==> !is_open(
                    (#[trigger] s.destinations[j]).1.query,
                ),
        },
    decreases s.destinations.len() - from,
{
    if from < s.destinations.len() && !is_open(s.destinations[from].1.query) {
        lemma_search(s, from + 1);
    }
}

/// Polling on goes on.
proof fn lemma_goes_on<C, W, S>(
    u: WorkState<C, W, S>,
    from: int,
    t: WorkState<C, W, S>,
    r: Result<ActionState<W, S>, WatchGone>,
)
    requires
        0 <= from,
        r is Ok,
        (t, r->Ok_0) == u.poll_from(from),
    ensures
        goes_on(u, from, t, r),
{
    lemma_search(u, from);
}

/// Work that is taken up asks first whether the destination service is ready.
pub proof fn law_start_asks_whether_the_service_is_ready<
    C,
    W,
    S,
    F: Fn(CacheOp<C>) -> CacheReply<C>,
    V: Fn(&C) -> Vec<Labeled<SocketAddr>>,
    N: Fn(&DnsNameAndPort, &str) -> Option<String>,
>(
    s: WorkState<C, W, S>,
    run: F,
    values: V,
    normalize: N,
    t: WorkState<C, W, S>,
    r: Result<ActionState<W, S>, WatchGone>,
)
    requires
        s.step(Event::Start, run, values, normalize, t, r),
    ensures
        r == Ok::<ActionState<W, S>, WatchGone>(ActionState::PollReady),
        t == (WorkState { phase: PhaseState::AwaitReady, ..s }),
{
}

/// Whether `n` may be what the caller made of an authority in the work's namespace.
pub open spec fn was_normalized<N: Fn(&DnsNameAndPort, &str) -> Option<String>>(
    normalize: N,
    authority: (Seq<char>, u16),
    namespace: Seq<char>,
    n: Option<String>,
) -> bool {
    exists|a: &DnsNameAndPort, ns: &str|
        #![trigger call_ensures(normalize, (a, ns), n)]
        a.host@ == authority.0 && a.port == authority.1 && ns@ == namespace && call_ensures(
            normalize,
            (a, ns),
            n,
        )
}

/// What the caller made of an authority.
pub(crate) proof fn lemma_was_normalized<N: Fn(&DnsNameAndPort, &str) -> Option<String>>(
    normalize: N,
    authority: (Seq<char>, u16),
    namespace: Seq<char>,
    name: Option<Seq<char>>,
) -> (n: Option<String>)
    requires
        normalizes(normalize, authority, namespace, name),
    ensures
        was_normalized(normalize, authority, namespace, n),
        n is Some <==> name is Some,
        n is Some ==> n->0@ == name->0,
{
    let (a, ns, n) = choose|a: &DnsNameAndPort, ns: &str, n: Option<String>|
        #![trigger call_ensures(normalize, (a, ns), n)]
        {
            &&& a@ == authority
            &&& ns@ == namespace
            &&& call_ensures(normalize, (a, ns), n)
            &&& name == match n {
                Some(n) => Some(n@),
                None => None,
            }
        };
    assert(call_ensures(normalize, (a, ns), n));
    n
}

/// Whether `request` asks for a normalized name: its scheme is `k8s`, and its path is the name.
pub open spec fn asks_for(request: (Seq<char>, Seq<char>), n: Option<String>) -> bool {
    n is Some && request.0 == "k8s"@ && request.1 == n->0@
}

/// The name that has waited longest is reconnected first: when the destination service is ready and
/// names are queued, the head leaves the queue, and a request for it, normalized, is asked for. Where
/// it cannot be normalized any more, it loses its query. Nothing else changes.
pub proof fn law_longest_waiting_is_reconnected_first<
    C,
    W,
    S,
    F: Fn(CacheOp<C>) -> CacheReply<C>,
    V: Fn(&C) -> Vec<Labeled<SocketAddr>>,
    N: Fn(&DnsNameAndPort, &str) -> Option<String>,
>(
    s: WorkState<C, W, S>,
    run: F,
    values: V,
    normalize: N,
    t: WorkState<C, W, S>,
    r: Result<ActionState<W, S>, WatchGone>,
)
    requires
        s.well_formed(),
        s.phase == PhaseState::AwaitReady,
        s.reconnects.len() > 0,
        s.step(Event::Ready(Readiness::Ready), run, values, normalize, t, r),
    ensures
        t.reconnects == s.reconnects.skip(1),
        t.rpc_ready,
        t.namespace == s.namespace,
        t.rx == s.rx,
        exists|i: int, n: Option<String>|
            {
                &&& 0 <= i < s.destinations.len()
                &&& (#[trigger] s.destinations[i]).0 == s.reconnects[0]
                &&& #[trigger] was_normalized(normalize, s.reconnects[0], s.namespace, n)
                &&& match r {
                    Ok(ActionState::Get(request)) => {
                        &&& asks_for(request, n)
                        &&& t.phase == PhaseState::Reconnecting(i)
                        &&& t.destinations == s.destinations
                    },
                    Ok(ActionState::PollReady) => {
                        &&& n is None
                        &&& t.phase == PhaseState::AwaitReady
                        &&& t.destinations == s.destinations.update(
                            i,
                            (s.destinations[i].0, SetState { query: None, ..s.destinations[i].1 }),
                        )
                    },
                    _ => false,
                }
            },
{
    let popped = WorkState { rpc_ready: true, reconnects: s.reconnects.drop_first(), ..s };
    let (i, name) = choose|i: int, name: Option<Seq<char>>|
        {
            &&& #[trigger] s.is_at(s.reconnects[0], i)
            &&& #[trigger] normalizes(normalize, s.reconnects[0], s.namespace, name)
            &&& match name {
                Some(name) => {
                    &&& t == popped.await_phase(PhaseState::Reconnecting(i))
                    &&& r->Ok_0 == ActionState::<W, S>::Get(request_to(name))
                },
                None => {
                    &&& t == popped.with_query(i, None).await_phase(PhaseState::AwaitReady)
                    &&& r->Ok_0 == ActionState::<W, S>::PollReady
                },
            }
        };
    let n = lemma_was_normalized(normalize, s.reconnects[0], s.namespace, name);
    assert(t.reconnects =~= s.reconnects.skip(1));
    assert(s.destinations[i].0 == s.reconnects[0]);
}

/// When the destination service is ready and nothing is queued, requests to watch are polled for.
pub proof fn law_ready_service_lets_watches_in<
    C,
    W,
    S,
    F: Fn(CacheOp<C>) -> CacheReply<C>,
    V: Fn(&C) -> Vec<Labeled<SocketAddr>>,
    N: Fn(&DnsNameAndPort, &str) -> Option<String>,
>(
    s: WorkState<C, W, S>,
    run: F,
    values: V,
    normalize: N,
    t: WorkState<C, W, S>,
    r: Result<ActionState<W, S>, WatchGone>,
)
    requires
        s.well_formed(),
        s.phase == PhaseState::AwaitReady,
        s.reconnects.len() == 0,
        s.step(Event::Ready(Readiness::Ready), run, values, normalize, t, r),
    ensures
        r == Ok::<ActionState<W, S>, WatchGone>(ActionState::PollWatches),
        t == (WorkState { phase: PhaseState::AwaitWatch, rpc_ready: true, ..s }),
{
}

/// When the destination service is not ready, or failed, that is remembered, and a round of polls
/// begins at the first name.
pub proof fn law_unready_service_leads_to_a_round<
    C,
    W,
    S,
    F: Fn(CacheOp<C>) -> CacheReply<C>,
    V: Fn(&C) -> Vec<Labeled<SocketAddr>>,
    N: Fn(&DnsNameAndPort, &str) -> Option<String>,
>(
    s: WorkState<C, W, S>,
    readiness: Readiness,
    run: F,
    values: V,
    normalize: N,
    t: WorkState<C, W, S>,
    r: Result<ActionState<W, S>, WatchGone>,
)
    requires
        s.well_formed(),
        s.phase == PhaseState::AwaitReady,
        readiness is NotReady || readiness is Failed,
        s.step(Event::Ready(readiness), run, values, normalize, t, r),
    ensures
        goes_on(WorkState { rpc_ready: false, ..s }, 0, t, r),
{
    lemma_goes_on(WorkState { rpc_ready: false, ..s }, 0, t, r);
}

/// When there is no request to watch, for now or for good, a round of polls begins at the first
/// name.
pub proof fn law_no_request_leads_to_a_round<
    C,
    W,
    S,
    F: Fn(CacheOp<C>) -> CacheReply<C>,
    V: Fn(&C) -> Vec<Labeled<SocketAddr>>,
    N: Fn(&DnsNameAndPort, &str) -> Option<String>,
>(
    s: WorkState<C, W, S>,
    polled: WatchPoll,
    run: F,
    values: V,
    normalize: N,
    t: WorkState<C, W, S>,
    r: Result<ActionState<W, S>, WatchGone>,
)
    requires
        s.well_formed(),
        s.phase == PhaseState::AwaitWatch,
        polled is NotReady || polled is Closed,
        s.step(Event::Watch(polled), run, values, normalize, t, r),
    ensures
        goes_on(s, 0, t, r),
{
    lemma_goes_on(s, 0, t, r);
}

/// Whether a request to watch was served, or turned away for good reason. A name that is known keeps
/// its query, and the watch joins its set; it is turned away only where it refused an endpoint that
/// is known. A new name is queried, or, where it cannot be normalized, entered without a query. Other
/// names are left alone.
pub open spec fn was_served<
    C,
    W,
    S,
    V: Fn(&C) -> Vec<Labeled<SocketAddr>>,
    N: Fn(&DnsNameAndPort, &str) -> Option<String>,
>(
    s: WorkState<C, W, S>,
    name: (Seq<char>, u16),
    tx: UnboundedSender<Update>,
    values: V,
    normalize: N,
    t: WorkState<C, W, S>,
    r: Result<ActionState<W, S>, WatchGone>,
) -> bool {
    if exists|i: int| 0 <= i < s.destinations.len() && (#[trigger] s.destinations[i]).0 == name {
        exists|i: int|
            {
                &&& 0 <= i < s.destinations.len()
                &&& (#[trigger] s.destinations[i]).0 == name
                &&& t.destinations.len() == s.destinations.len()
                &&& t.destinations[i].0 == name
                &&& forall|j: int|
                    0 <= j < s.destinations.len() && j != i ==> #[trigger] t.destinations[j]
                        == s.destinations[j]
                &&& t.phase == PhaseState::AwaitReady
                &&& match r {
                    Ok(action) => {
                        &&& action == ActionState::<W, S>::PollReady
                        &&& was_joined(s.destinations[i].1, tx, values, t.destinations[i].1)
                    },
                    Err(_) => {
                        &&& was_turned_away(s.destinations[i].1, tx, values)
                        &&& t.destinations[i] == s.destinations[i]
                    },
                }
            }
    } else {
        exists|n: Option<String>|
            {
                &&& #[trigger] was_normalized(normalize, name, s.namespace, n)
                &&& match r {
                    Ok(ActionState::Get(request)) => {
                        &&& asks_for(request, n)
                        &&& t.phase == PhaseState::Connecting(name, tx)
                        &&& t.destinations == s.destinations
                    },
                    Ok(ActionState::PollReady) => {
                        &&& n is None
                        &&& t.phase == PhaseState::AwaitReady
                        &&& t.destinations == s.destinations.push(
                            (name, SetState { addrs: Exists::Unknown, query: None, txs: seq![tx] }),
                        )
                    },
                    _ => false,
                }
            }
    }
}

/// Every request to watch is served: the name is queried for it, or it becomes the last watch of
/// its name, on its own channel and caught up; it is turned away only where it refused an endpoint.
pub proof fn law_request_to_watch_is_served<
    C,
    W,
    S,
    F: Fn(CacheOp<C>) -> CacheReply<C>,
    V: Fn(&C) -> Vec<Labeled<SocketAddr>>,
    N: Fn(&DnsNameAndPort, &str) -> Option<String>,
>(
    s: WorkState<C, W, S>,
    authority: DnsNameAndPort,
    tx: UnboundedSender<Update>,
    run: F,
    values: V,
    normalize: N,
    t: WorkState<C, W, S>,
    r: Result<ActionState<W, S>, WatchGone>,
)
    requires
        s.well_formed(),
        s.phase == PhaseState::AwaitWatch,
        s.step(Event::Watch(WatchPoll::Request(authority, tx)), run, values, normalize, t, r),
    ensures
        was_served(s, (authority.host@, authority.port), tx, values, normalize, t, r),
        t.reconnects == s.reconnects,
        t.rpc_ready == s.rpc_ready,
        t.namespace == s.namespace,
        t.rx == s.rx,
        r is Ok ==> t.phase == PhaseState::Connecting((authority.host@, authority.port), tx)
            || exists|i: int|
            {
                &&& 0 <= i < t.destinations.len()
                &&& (#[trigger] t.destinations[i]).0 == (authority.host@, authority.port)
                &&& t.destinations[i].1.txs.len() == if i < s.destinations.len() {
                    s.destinations[i].1.txs.len() + 1
                } else {
                    1
                }
                &&& same_channel(t.destinations[i].1.txs.last(), tx)
            },
{
    let name = (authority.host@, authority.port);
    assert(authority@ == name);
    if s.knows(name) {
        let (i, set) = choose|i: int, set: SetState<C, W, S>|
            {
                &&& #[trigger] s.is_at(authority@, i)
                &&& t == (#[trigger] s.with_set(i, set)).await_phase(PhaseState::AwaitReady)
                &&& match r {
                    Ok(action) => {
                        &&& action == ActionState::<W, S>::PollReady
                        &&& joined(s.destinations[i].1, tx, values, set)
                    },
                    Err(_) => {
                        &&& gone(s.destinations[i].1, tx, values)
                        &&& set == s.destinations[i].1
                    },
                }
            };
        if r is Ok {
            lemma_was_joined(s.destinations[i].1, tx, values, set);
        } else {
            lemma_was_turned_away(s.destinations[i].1, tx, values);
        }
        assert(s.destinations[i].0 == name);
        assert(t.destinations[i].0 == name);
    } else {
        let given = choose|given: Option<Seq<char>>|
            {
                &&& #[trigger] normalizes(normalize, authority@, s.namespace, given)
                &&& r is Ok
                &&& match given {
                    Some(given) => {
                        &&& t == s.await_phase(PhaseState::Connecting(authority@, tx))
                        &&& r->Ok_0 == ActionState::<W, S>::Get(request_to(given))
                    },
                    None => {
                        &&& t == s.with_name(authority@, None, tx).await_phase(
                            PhaseState::AwaitReady,
                        )
                        &&& r->Ok_0 == ActionState::<W, S>::PollReady
                    },
                }
            };
        let n = lemma_was_normalized(normalize, authority@, s.namespace, given);
        assert forall|i: int| 0 <= i < s.destinations.len() implies (
        #[trigger] s.destinations[i]).0 != name by {
            assert(!s.is_at(name, i));
        }
        if given is None {
            let last = t.destinations.len() - 1;
            assert(t.destinations[last].0 == name);
        }
    }
}

/// A response is the query from then on: of the name that is reconnected, of which all else stays,
/// or of the new name, of which nothing is known and which the watch that asked for it watches.
pub proof fn law_response_becomes_the_query<
    C,
    W,
    S,
    F: Fn(CacheOp<C>) -> CacheReply<C>,
    V: Fn(&C) -> Vec<Labeled<SocketAddr>>,
    N: Fn(&DnsNameAndPort, &str) -> Option<String>,
>(
    s: WorkState<C, W, S>,
    response: W,
    run: F,
    values: V,
    normalize: N,
    t: WorkState<C, W, S>,
    r: Result<ActionState<W, S>, WatchGone>,
)
    requires
        s.well_formed(),
        s.phase is Reconnecting || s.phase is Connecting,
        s.step(Event::Response(response), run, values, normalize, t, r),
    ensures
        r == Ok::<ActionState<W, S>, WatchGone>(ActionState::PollReady),
        ({
            let query = Some(
                DestinationServiceQuery::ConnectedOrConnecting { rx: UpdateRx::Waiting(response) },
            );
            t == WorkState {
                phase: PhaseState::AwaitReady,
                destinations: match s.phase {
                    PhaseState::Reconnecting(i) => s.destinations.update(
                        i,
                        (s.destinations[i].0, SetState { query, ..s.destinations[i].1 }),
                    ),
                    PhaseState::Connecting(name, tx) => s.destinations.push(
                        (name, SetState { addrs: Exists::Unknown, query, txs: seq![tx] }),
                    ),
                    _ => s.destinations,
                },
                ..s
            }
        }),
{
}

/// A response that is here is streamed from: the stream is polled, and nothing changes yet.
pub proof fn law_response_leads_to_its_stream<
    C,
    W,
    S,
    F: Fn(CacheOp<C>) -> CacheReply<C>,
    V: Fn(&C) -> Vec<Labeled<SocketAddr>>,
    N: Fn(&DnsNameAndPort, &str) -> Option<String>,
>(
    s: WorkState<C, W, S>,
    stream: S,
    run: F,
    values: V,
    normalize: N,
    t: WorkState<C, W, S>,
    r: Result<ActionState<W, S>, WatchGone>,
)
    requires
        s.well_formed(),
        s.phase is Polling,
        s.step(Event::Polled(RxEvent::Response(stream)), run, values, normalize, t, r),
    ensures
        r == Ok::<ActionState<W, S>, WatchGone>(ActionState::Poll(UpdateRx::Streaming(stream))),
        t == s,
{
}

/// An update on a stream is taken up for the name that is polled, the same stream is polled again,
/// and no other name changes.
pub proof fn law_update_is_taken_up_for_its_name<
    C,
    W,
    S,
    F: Fn(CacheOp<C>) -> CacheReply<C>,
    V: Fn(&C) -> Vec<Labeled<SocketAddr>>,
    N: Fn(&DnsNameAndPort, &str) -> Option<String>,
>(
    s: WorkState<C, W, S>,
    stream: S,
    update: PbUpdate,
    run: F,
    values: V,
    normalize: N,
    t: WorkState<C, W, S>,
    r: Result<ActionState<W, S>, WatchGone>,
)
    requires
        s.well_formed(),
        s.phase is Polling,
        s.step(Event::Polled(RxEvent::Item(stream, update)), run, values, normalize, t, r),
    ensures
        r == Ok::<ActionState<W, S>, WatchGone>(ActionState::Poll(UpdateRx::Streaming(stream))),
        ({
            let i = s.phase->Polling_0;
            &&& t == WorkState {
                destinations: s.destinations.update(i, (s.destinations[i].0, t.destinations[i].1)),
                ..s
            }
            &&& t.destinations[i].1.query == s.destinations[i].1.query
            &&& was_taken_up(s.destinations[i].1, update, run, t.destinations[i].1)
        }),
{
    let i = s.phase->Polling_0;
    let set = choose|set: SetState<C, W, S>|
        {
            &&& #[trigger] applied(s.destinations[i].1, update, run, set)
            &&& t == s.with_set(i, set)
        };
    assert(t.destinations[i].1 == set);
    law_update_is_taken_up(s.destinations[i].1, update, run, set);
}

/// A query that has nothing for now stays open: it is put back as it is, and the names that follow
/// are polled.
pub proof fn law_quiet_query_stays_open<
    C,
    W,
    S,
    F: Fn(CacheOp<C>) -> CacheReply<C>,
    V: Fn(&C) -> Vec<Labeled<SocketAddr>>,
    N: Fn(&DnsNameAndPort, &str) -> Option<String>,
>(
    s: WorkState<C, W, S>,
    polled: RxEvent<W, S>,
    rx: UpdateRx<W, S>,
    run: F,
    values: V,
    normalize: N,
    t: WorkState<C, W, S>,
    r: Result<ActionState<W, S>, WatchGone>,
)
    requires
        s.well_formed(),
        s.phase is Polling,
        polled == match rx {
            UpdateRx::Waiting(response) => RxEvent::<W, S>::ResponseNotReady(response),
            UpdateRx::Streaming(stream) => RxEvent::<W, S>::StreamNotReady(stream),
        },
        s.step(Event::Polled(polled), run, values, normalize, t, r),
    ensures
        ({
            let i = s.phase->Polling_0;
            let query = Some(DestinationServiceQuery::ConnectedOrConnecting { rx });
            &&& t.destinations[i] == (
                s.destinations[i].0,
                SetState { query, ..s.destinations[i].1 },
            )
            &&& t.reconnects == s.reconnects
            &&& goes_on(
                WorkState {
                    destinations: s.destinations.update(
                        i,
                        (s.destinations[i].0, SetState { query, ..s.destinations[i].1 }),
                    ),
                    ..s
                },
                i + 1,
                t,
                r,
            )
        }),
{
    let i = s.phase->Polling_0;
    let query = Some(DestinationServiceQuery::ConnectedOrConnecting { rx });
    let u = WorkState {
        destinations: s.destinations.update(
            i,
            (s.destinations[i].0, SetState { query, ..s.destinations[i].1 }),
        ),
        ..s
    };
    assert(u == s.with_query(i, query));
    lemma_goes_on(u, i + 1, t, r);
}

/// A lost query is reconnected: when the response of a name failed, or its stream failed or ended,
/// the name must be reconnected, whatever is known of it; it is queued for that, last; its cache is
/// told that the next modification replaces what it holds; and the names that follow are polled.
pub proof fn law_lost_query_is_queued<
    C,
    W,
    S,
    F: Fn(CacheOp<C>) -> CacheReply<C>,
    V: Fn(&C) -> Vec<Labeled<SocketAddr>>,
    N: Fn(&DnsNameAndPort, &str) -> Option<String>,
>(
    s: WorkState<C, W, S>,
    polled: RxEvent<W, S>,
    run: F,
    values: V,
    normalize: N,
    t: WorkState<C, W, S>,
    r: Result<ActionState<W, S>, WatchGone>,
)
    requires
        s.well_formed(),
        s.phase is Polling,
        polled is ResponseFailed || polled is StreamFailed || polled is StreamEnded,
        s.step(Event::Polled(polled), run, values, normalize, t, r),
    ensures
        ({
            let i = s.phase->Polling_0;
            let name = s.destinations[i].0;
            &&& t.reconnects == s.reconnects.push(name)
            &&& t.reconnects.contains(name)
            &&& t.destinations[i].0 == name
            &&& t.destinations[i].1.query == Some(DestinationServiceQuery::<W, S>::NeedsReconnect)
            &&& was_marked(
                s.destinations[i].1,
                run,
                SetState { query: s.destinations[i].1.query, ..t.destinations[i].1 },
            )
            &&& goes_on(
                WorkState {
                    destinations: s.destinations.update(i, (name, t.destinations[i].1)),
                    reconnects: s.reconnects.push(name),
                    ..s
                },
                i + 1,
                t,
                r,
            )
        }),
{
    let i = s.phase->Polling_0;
    let name = s.destinations[i].0;
    let set = choose|set: SetState<C, W, S>|
        {
            &&& #[trigger] marked(s.destinations[i].1, run, set)
            &&& (t, r->Ok_0) == s.requeue(i, set).poll_from(i + 1)
        };
    let u = s.requeue(i, set);
    lemma_was_marked(s.destinations[i].1, run, set);
    lemma_goes_on(u, i + 1, t, r);
    assert(t.destinations[i] == u.destinations[i]);
    assert(u == WorkState {
        destinations: s.destinations.update(i, (name, t.destinations[i].1)),
        reconnects: s.reconnects.push(name),
        ..s
    });
    assert(t.reconnects[s.reconnects.len() as int] == name);
}

/// A name must be reconnected exactly if it is queued for that, or is being reconnected; and the
/// queue holds nothing twice, and nothing that is not watched.
pub proof fn law_queue_holds_what_must_be_reconnected<C, W, S>(s: WorkState<C, W, S>, i: int)
    requires
        s.well_formed(),
        0 <= i < s.destinations.len(),
    ensures
        s.destinations[i].1.query == Some(DestinationServiceQuery::<W, S>::NeedsReconnect) <==> (
        exists|k: int|
            0 <= k < s.reconnects.len() && #[trigger] s.reconnects[k] == s.destinations[i].0)
            || s.phase == PhaseState::Reconnecting(i),
        forall|k: int, m: int|
            0 <= k < m < s.reconnects.len() ==> #[trigger] s.reconnects[k]
                != #[trigger] s.reconnects[m],
        forall|k: int|
            0 <= k < s.reconnects.len() ==> exists|j: int|
                0 <= j < s.destinations.len() && (#[trigger] s.destinations[j]).0
                    == #[trigger] s.reconnects[k],
        forall|j: int|
            0 <= j < s.destinations.len() && j != i ==> (#[trigger] s.destinations[j]).0
                != s.destinations[i].0,
{
    let busy = match s.phase {
        PhaseState::Reconnecting(k) => Some(k),
        _ => None,
    };
    assert(s.queue_fits(busy));
    assert(needs_reconnect(s.destinations[i].1) <==> s.reconnects.contains(s.destinations[i].0)
        || busy == Some(i));
    assert forall|k: int| 0 <= k < s.reconnects.len() implies exists|j: int|
        0 <= j < s.destinations.len() && (#[trigger] s.destinations[j]).0
            == #[trigger] s.reconnects[k] by {
        assert(s.knows(s.reconnects[k]));
        let name = s.reconnects[k];
        let j = choose|j: int| s.is_at(name, j);
        assert(s.destinations[j].0 == name);
    }
    assert forall|j: int| 0 <= j < s.destinations.len() && j != i implies (
    #[trigger] s.destinations[j]).0 != s.destinations[i].0 by {
        if j < i {
            assert(s.destinations[j].0 != s.destinations[i].0);
        } else {
            assert(s.destinations[i].0 != s.destinations[j].0);
        }
    }
}

/// Whether `states` are those of one round of polls: the first event begins it, the destination
/// service being not ready or no request to watch being there, and every other event is what came of
/// polling a query.
pub open spec fn is_round<
    C,
    W,
    S,
    F: Fn(CacheOp<C>) -> CacheReply<C>,
    V: Fn(&C) -> Vec<Labeled<SocketAddr>>,
    N: Fn(&DnsNameAndPort, &str) -> Option<String>,
>(
    states: Seq<WorkState<C, W, S>>,
    events: Seq<Event<W, S>>,
    results: Seq<Result<ActionState<W, S>, WatchGone>>,
    run: F,
    values: V,
    normalize: N,
) -> bool {
    &&& events.len() > 0
    &&& states.len() == events.len() + 1
    &&& results.len() == events.len()
    &&& states[0].well_formed()
    &&& match events[0] {
        Event::Ready(readiness) => states[0].phase is AwaitReady && readiness != Readiness::Ready,
        Event::Watch(polled) => states[0].phase is AwaitWatch && (polled is NotReady
            || polled is Closed),
        _ => false,
    }
    &&& forall|k: int|
        1 <= k < events.len() ==> (#[trigger] events[k]) is Polled && states[k].phase is Polling
    &&& forall|k: int|
        0 <= k < events.len() ==> states[k].step(
            #[trigger] events[k],
            run,
            values,
            normalize,
            states[k + 1],
            results[k],
        )
}

/// How far a round has come after `m` events: the `j`-th query was polled at `k`, or its turn is
/// still to come.
proof fn lemma_round_so_far<
    C,
    W,
    S,
    F: Fn(CacheOp<C>) -> CacheReply<C>,
    V: Fn(&C) -> Vec<Labeled<SocketAddr>>,
    N: Fn(&DnsNameAndPort, &str) -> Option<String>,
>(
    states: Seq<WorkState<C, W, S>>,
    events: Seq<Event<W, S>>,
    results: Seq<Result<ActionState<W, S>, WatchGone>>,
    run: F,
    values: V,
    normalize: N,
    j: int,
    m: int,
) -> (k: int)
    requires
        is_round(states, events, results, run, values, normalize),
        0 <= j < states[0].destinations.len(),
        is_open(states[0].destinations[j].1.query),
        1 <= m <= events.len(),
    ensures
        states[m].well_formed(),
        states[m].destinations.len() == states[0].destinations.len(),
        states[m].phase is Polling ==> results[m - 1] is Ok && results[m - 1]->Ok_0 is Poll,
        (1 <= k <= m && states[k].phase == PhaseState::Polling(j)) || {
            &&& k == 0
            &&& results[m - 1] is Ok
            &&& results[m - 1]->Ok_0 is Poll
            &&& states[m].phase is Polling
            &&& states[m].phase->Polling_0 < j
            &&& states[m].destinations[j] == states[0].destinations[j]
        },
    decreases m,
{
    let (s, event, t, r) = (states[m - 1], events[m - 1], states[m], results[m - 1]);
    if m == 1 {
        law_step_keeps_well_formed(s, event, run, values, normalize, t, r);
        let u = if event is Ready {
            law_unready_service_leads_to_a_round(
                s,
                event->Ready_0,
                run,
                values,
                normalize,
                t,
                r,
            );
            WorkState { rpc_ready: false, ..s }
        } else {
            law_no_request_leads_to_a_round(s, event->Watch_0, run, values, normalize, t, r);
            s
        };
        assert(goes_on(u, 0, t, r));
        assert(is_open(u.destinations[j].1.query));
        if t.phase->Polling_0 == j {
            1
        } else {
            0
        }
    } else {
        let k = lemma_round_so_far(states, events, results, run, values, normalize, j, m - 1);
        law_step_keeps_well_formed(s, event, run, values, normalize, t, r);
        let i = s.phase->Polling_0;
        let polled = event->Polled_0;
        match polled {
            RxEvent::Response(stream) => {
                law_response_leads_to_its_stream(s, stream, run, values, normalize, t, r);
                k
            },
            RxEvent::Item(stream, update) => {
                law_update_is_taken_up_for_its_name(
                    s,
                    stream,
                    update,
                    run,
                    values,
                    normalize,
                    t,
                    r,
                );
                k
            },
            RxEvent::ResponseNotReady(response) => {
                let rx = UpdateRx::Waiting(response);
                law_quiet_query_stays_open(s, polled, rx, run, values, normalize, t, r);
                lemma_turn(s, i, t, r, j, k, m)
            },
            RxEvent::StreamNotReady(stream) => {
                let rx = UpdateRx::Streaming(stream);
                law_quiet_query_stays_open(s, polled, rx, run, values, normalize, t, r);
                lemma_turn(s, i, t, r, j, k, m)
            },
            _ => {
                law_lost_query_is_queued(s, polled, run, values, normalize, t, r);
                lemma_turn(s, i, t, r, j, k, m)
            },
        }
    }
}

/// When the work goes on from the `i`-th name, the `j`-th has had its turn, has it now, or is still
/// to have it.
proof fn lemma_turn<C, W, S>(
    s: WorkState<C, W, S>,
    i: int,
    t: WorkState<C, W, S>,
    r: Result<ActionState<W, S>, WatchGone>,
    j: int,
    k: int,
    m: int,
) -> (now: int)
    requires
        0 <= i < s.destinations.len(),
        0 <= j < s.destinations.len(),
        1 <= k < m || k == 0 && i < j && is_open(s.destinations[j].1.query),
        exists|u: WorkState<C, W, S>|
            {
                &&& #[trigger] goes_on(u, i + 1, t, r)
                &&& u.destinations.len() == s.destinations.len()
                &&& i != j ==> u.destinations[j] == s.destinations[j]
            },
    ensures
        t.destinations.len() == s.destinations.len(),
        t.phase is Polling ==> r is Ok && r->Ok_0 is Poll,
        1 <= k ==> now == k,
        k == 0 ==> (now == m && t.phase == PhaseState::Polling(j)) || {
            &&& now == 0
            &&& r is Ok
            &&& r->Ok_0 is Poll
            &&& t.phase is Polling
            &&& t.phase->Polling_0 < j
            &&& t.destinations[j] == s.destinations[j]
        },
{
    let u = choose|u: WorkState<C, W, S>|
        {
            &&& #[trigger] goes_on(u, i + 1, t, r)
            &&& u.destinations.len() == s.destinations.len()
            &&& i != j ==> u.destinations[j] == s.destinations[j]
        };
    if k > 0 {
        k
    } else {
        assert(is_open(u.destinations[j].1.query));
        if t.phase->Polling_0 == j {
            m
        } else {
            0
        }
    }
}

/// A round leaves out no open query: every query that is open when a round of polls begins is polled
/// before the round is over, whatever is known of its name.
pub proof fn law_round_polls_every_open_query<
    C,
    W,
    S,
    F: Fn(CacheOp<C>) -> CacheReply<C>,
    V: Fn(&C) -> Vec<Labeled<SocketAddr>>,
    N: Fn(&DnsNameAndPort, &str) -> Option<String>,
>(
    states: Seq<WorkState<C, W, S>>,
    events: Seq<Event<W, S>>,
    results: Seq<Result<ActionState<W, S>, WatchGone>>,
    run: F,
    values: V,
    normalize: N,
    j: int,
) -> (k: int)
    requires
        is_round(states, events, results, run, values, normalize),
        !(results.last() is Ok && results.last()->Ok_0 is Poll),
        0 <= j < states[0].destinations.len(),
        is_open(states[0].destinations[j].1.query),
    ensures
        1 <= k < events.len(),
        states[k].phase == PhaseState::Polling(j),
{
    let n = events.len() as int;
    lemma_round_so_far(states, events, results, run, values, normalize, j, n)
}

/// The work says what it waits for: to be taken up while it is idle, and else for what comes of the
/// action that it asked for.
pub proof fn law_expected_event_is_known<C, W, S>(
    work: &DiscoveryWork<C, W, S>,
    event: &Event<W, S>,
    r: bool,
)
    requires
        call_ensures(DiscoveryWork::<C, W, S>::is_expecting, (work, event), r),
    ensures
        r == match work@.phase {
            PhaseState::Idle => event is Start,
            PhaseState::AwaitReady => event is Ready,
            PhaseState::AwaitWatch => event is Watch,
            PhaseState::Reconnecting(_) => event is Response,
            PhaseState::Connecting(_, _) => event is Response,
            PhaseState::Polling(_) => event is Polled,
        },
{
}

/// The subject is the name that is queried, or whose query is polled.
pub proof fn law_subject_is_the_name_at_hand<C, W, S>(
    work: &DiscoveryWork<C, W, S>,
    r: Option<&DnsNameAndPort>,
)
    requires
        call_ensures(DiscoveryWork::<C, W, S>::subject, (work,), r),
    ensures
        match work@.phase {
            PhaseState::Reconnecting(i) => r is Some && r->0@ == work@.destinations[i].0,
            PhaseState::Connecting(name, _) => r is Some && r->0@ == name,
            PhaseState::Polling(i) => r is Some && r->0@ == work@.destinations[i].0,
            _ => r is None,
        },
{
}

/// A queued name is not forgotten: it keeps its place in the queue, whatever happens, until the
/// destination service is ready, and then moves up by one; from the head it is taken up, and queried
/// if it can be.
pub proof fn law_queued_name_is_not_forgotten<
    C,
    W,
    S,
    F: Fn(CacheOp<C>) -> CacheReply<C>,
    V: Fn(&C) -> Vec<Labeled<SocketAddr>>,
    N: Fn(&DnsNameAndPort, &str) -> Option<String>,
>(
    s: WorkState<C, W, S>,
    event: Event<W, S>,
    run: F,
    values: V,
    normalize: N,
    t: WorkState<C, W, S>,
    r: Result<ActionState<W, S>, WatchGone>,
    k: int,
)
    requires
        s.well_formed(),
        s.expects(event),
        s.step(event, run, values, normalize, t, r),
        0 <= k < s.reconnects.len(),
    ensures
        if event == Event::<W, S>::Ready(Readiness::Ready) {
            if k > 0 {
                k - 1 < t.reconnects.len() && t.reconnects[k - 1] == s.reconnects[k]
            } else {
                &&& r is Ok
                &&& r->Ok_0 is Get || exists|n: Option<String>|
                    n is None && #[trigger] was_normalized(
                        normalize,
                        s.reconnects[0],
                        s.namespace,
                        n,
                    )
            }
        } else {
            k < t.reconnects.len() && t.reconnects[k] == s.reconnects[k]
        },
{
    match event {
        Event::Start => {
            law_start_asks_whether_the_service_is_ready(s, run, values, normalize, t, r);
        },
        Event::Ready(readiness) => {
            if readiness == Readiness::Ready {
                law_longest_waiting_is_reconnected_first(s, run, values, normalize, t, r);
            } else {
                law_unready_service_leads_to_a_round(s, readiness, run, values, normalize, t, r);
            }
        },
        Event::Watch(WatchPoll::Request(authority, tx)) => {
            law_request_to_watch_is_served(s, authority, tx, run, values, normalize, t, r);
        },
        Event::Watch(polled) => {
            law_no_request_leads_to_a_round(s, polled, run, values, normalize, t, r);
        },
        Event::Response(response) => {
            law_response_becomes_the_query(s, response, run, values, normalize, t, r);
        },
        Event::Polled(polled) => {
            match polled {
                RxEvent::Response(stream) => {
                    law_response_leads_to_its_stream(s, stream, run, values, normalize, t, r);
                },
                RxEvent::Item(stream, update) => {
                    law_update_is_taken_up_for_its_name(
                        s,
                        stream,
                        update,
                        run,
                        values,
                        normalize,
                        t,
                        r,
                    );
                },
                RxEvent::ResponseNotReady(response) => {
                    let rx = UpdateRx::Waiting(response);
                    law_quiet_query_stays_open(s, polled, rx, run, values, normalize, t, r);
                },
                RxEvent::StreamNotReady(stream) => {
                    let rx = UpdateRx::Streaming(stream);
                    law_quiet_query_stays_open(s, polled, rx, run, values, normalize, t, r);
                },
                _ => {
                    law_lost_query_is_queued(s, polled, run, values, normalize, t, r);
                },
            }
        },
    }
}

} // verus!
