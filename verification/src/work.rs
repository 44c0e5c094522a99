//! The work of talking to the destination service.
//!
//! The work is a state machine: it says what is to be polled or sent next, and takes up what came
//! of it. Whoever drives it performs each action and hands back the event.
use crate::addr::SocketAddr;
use crate::authority::DnsNameAndPort;
use crate::cache::{runs, CacheOp, CacheReply, Exists};
use crate::labels::{Labeled, Update};
use crate::pb::Destination;
use crate::query::{
    connect_maybe, normalizes, normalizes_all, request_to, rx_poll, DestinationServiceQuery,
    RxEvent, RxPoll, UpdateRx,
};
use crate::set::{
    applied, gone, joined, marked, reads, DestinationSet, SetPoll, SetState, WatchGone,
};
use futures::sync::mpsc::{UnboundedReceiver, UnboundedSender};
use std::collections::VecDeque;
use vstd::prelude::*;

verus! {

/// A name, and what is known of it.
struct Entry<C, W, S> {
    authority: DnsNameAndPort,
    set: DestinationSet<C, W, S>,
}

/// What the work waits for.
enum Phase {
    /// To be started.
    Idle,
    /// Whether the destination service is ready.
    AwaitReady,
    /// A request to watch a name.
    AwaitWatch,
    /// The response to the query for a name that is known already.
    Reconnecting(usize),
    /// The response to the query for a new name.
    Connecting(DnsNameAndPort, UnboundedSender<Update>),
    /// What comes of polling the query for a name.
    Polling(usize),
}

/// The work of talking to the destination service: the names that are watched, a queue of
/// authorities that need to be reconnected, whether the service was ready when it was last polled,
/// and the receiver of requests to watch a name.
pub struct DiscoveryWork<C, W, S> {
    default_destination_namespace: String,
    destinations: Vec<Entry<C, W, S>>,
    reconnects: VecDeque<DnsNameAndPort>,
    rpc_ready: bool,
    rx: UnboundedReceiver<(DnsNameAndPort, UnboundedSender<Update>)>,
    phase: Phase,
}

/// What is to be done next.
#[derive(Debug)]
pub enum Action<W, S> {
    /// Ask whether the destination service is ready.
    PollReady,
    /// Poll for a request to watch a name.
    PollWatches,
    /// Send this request to the destination service.
    Get(Destination),
    /// Poll the response that is waited for, or the stream.
    Poll(UpdateRx<W, S>),
    /// Nothing, until something wakes the work.
    Done,
}

/// Whether the destination service is ready.
#[derive(Clone, Copy, Debug, PartialEq, Eq)]
pub enum Readiness {
    Ready,
    NotReady,
    Failed,
}

/// What came of polling for a request to watch a name.
#[derive(Debug)]
pub enum WatchPoll {
    /// A request.
    Request(DnsNameAndPort, UnboundedSender<Update>),
    /// None for now.
    NotReady,
    /// There will be no more.
    Closed,
}

/// What came of the last action.
#[derive(Debug)]
pub enum Event<W, S> {
    /// The work is to be taken up.
    Start,
    /// Whether the destination service is ready.
    Ready(Readiness),
    /// What came of polling for a request to watch a name.
    Watch(WatchPoll),
    /// The response to a request, which is still to be waited for.
    Response(W),
    /// What came of polling a response or a stream.
    Polled(RxEvent<W, S>),
}

/// What the work waits for, as contracts speak of it.
pub enum PhaseState {
    Idle,
    AwaitReady,
    AwaitWatch,
    Reconnecting(int),
    Connecting((Seq<char>, u16), UnboundedSender<Update>),
    Polling(int),
}

/// An action, as contracts speak of it.
pub enum ActionState<W, S> {
    PollReady,
    PollWatches,
    Get((Seq<char>, Seq<char>)),
    Poll(UpdateRx<W, S>),
    Done,
}

/// The work, as contracts speak of it.
#[verifier::ext_equal]
pub struct WorkState<C, W, S> {
    pub namespace: Seq<char>,
    pub destinations: Seq<((Seq<char>, u16), SetState<C, W, S>)>,
    pub reconnects: Seq<(Seq<char>, u16)>,
    pub rpc_ready: bool,
    pub rx: UnboundedReceiver<(DnsNameAndPort, UnboundedSender<Update>)>,
    pub phase: PhaseState,
}

impl View for Phase {
    type V = PhaseState;

    closed spec fn view(&self) -> PhaseState {
        match *self {
            Phase::Idle => PhaseState::Idle,
            Phase::AwaitReady => PhaseState::AwaitReady,
            Phase::AwaitWatch => PhaseState::AwaitWatch,
            Phase::Reconnecting(i) => PhaseState::Reconnecting(i as int),
            Phase::Connecting(authority, tx) => PhaseState::Connecting(authority@, tx),
            Phase::Polling(i) => PhaseState::Polling(i as int),
        }
    }
}

impl<W, S> View for Action<W, S> {
    type V = ActionState<W, S>;

    open spec fn view(&self) -> ActionState<W, S> {
        match *self {
            Action::PollReady => ActionState::PollReady,
            Action::PollWatches => ActionState::PollWatches,
            Action::Get(request) => ActionState::Get(request@),
            Action::Poll(rx) => ActionState::Poll(rx),
            Action::Done => ActionState::Done,
        }
    }
}

impl<C, W, S> View for DiscoveryWork<C, W, S> {
    type V = WorkState<C, W, S>;

    closed spec fn view(&self) -> WorkState<C, W, S> {
        WorkState {
            namespace: self.default_destination_namespace@,
            destinations: self.destinations@.map_values(
                |entry: Entry<C, W, S>| (entry.authority@, entry.set@),
            ),
            reconnects: self.reconnects@.map_values(|authority: DnsNameAndPort| authority@),
            rpc_ready: self.rpc_ready,
            rx: self.rx,
            phase: self.phase@,
        }
    }
}

/// Whether a set's query has a response that is waited for, or a stream.
pub open spec fn is_connected<C, W, S>(set: SetState<C, W, S>) -> bool {
    set.query matches Some(DestinationServiceQuery::ConnectedOrConnecting { .. })
}

/// Whether a set's query must be reconnected.
pub open spec fn needs_reconnect<C, W, S>(set: SetState<C, W, S>) -> bool {
    set.query matches Some(DestinationServiceQuery::NeedsReconnect)
}

impl<C, W, S> WorkState<C, W, S> {
    /// Whether `authority` is the `i`-th name.
    pub open spec fn is_at(self, authority: (Seq<char>, u16), i: int) -> bool {
        0 <= i < self.destinations.len() && self.destinations[i].0 == authority
    }

    /// Whether `authority` is among the names.
    pub open spec fn knows(self, authority: (Seq<char>, u16)) -> bool {
        exists|i: int| self.is_at(authority, i)
    }

    /// Whether the `n`-th name in the queue is the first there that is watched.
    pub open spec fn is_next(self, n: int) -> bool {
        &&& 0 <= n < self.reconnects.len()
        &&& self.knows(self.reconnects[n])
        &&& forall|m: int| 0 <= m < n ==> !self.knows(#[trigger] self.reconnects[m])
    }

    /// The name that the work is at: the one that is being queried, or whose query is polled.
    pub open spec fn subject(self) -> Option<(Seq<char>, u16)> {
        match self.phase {
            PhaseState::Reconnecting(i) => Some(self.destinations[i].0),
            PhaseState::Connecting(authority, _) => Some(authority),
            PhaseState::Polling(i) => Some(self.destinations[i].0),
            _ => None,
        }
    }

    /// Whether each name occurs once.
    pub open spec fn names_once(self) -> bool {
        forall|i: int, j: int|
            0 <= i < j < self.destinations.len() ==> (#[trigger] self.destinations[i]).0 != (
            #[trigger] self.destinations[j]).0
    }

    /// Whether the queue holds, once each, the names whose query must be reconnected, but for the
    /// one that is being reconnected, if any.
    pub open spec fn queue_fits(self, busy: Option<int>) -> bool {
        &&& self.reconnects.no_duplicates()
        &&& forall|k: int|
            0 <= k < self.reconnects.len() ==> self.knows(#[trigger] self.reconnects[k])
        &&& forall|i: int|
            0 <= i < self.destinations.len() ==> (needs_reconnect(
                (#[trigger] self.destinations[i]).1,
            ) <==> self.reconnects.contains(self.destinations[i].0) || busy == Some(i))
    }

    /// The work is well formed: each name occurs once; the queue holds, once each, the names whose
    /// query must be reconnected, but for the one that is being reconnected; and what is waited
    /// for fits the rest.
    pub open spec fn well_formed(self) -> bool {
        &&& self.names_once()
        &&& match self.phase {
            PhaseState::Idle => self.queue_fits(None),
            PhaseState::AwaitReady => self.queue_fits(None),
            PhaseState::AwaitWatch => {
                &&& self.queue_fits(None)
                &&& self.rpc_ready
                &&& self.reconnects.len() == 0
            },
            PhaseState::Reconnecting(i) => {
                &&& self.queue_fits(Some(i))
                &&& self.rpc_ready
                &&& 0 <= i < self.destinations.len()
                &&& !self.reconnects.contains(self.destinations[i].0)
            },
            PhaseState::Connecting(authority, _) => {
                &&& self.queue_fits(None)
                &&& self.rpc_ready
                &&& self.reconnects.len() == 0
                &&& !self.knows(authority)
            },
            PhaseState::Polling(i) => {
                &&& self.queue_fits(None)
                &&& 0 <= i < self.destinations.len()
                &&& self.destinations[i].1.query is None
            },
        }
    }

    /// Whether the work waits for `event`.
    pub open spec fn expects(self, event: Event<W, S>) -> bool {
        match event {
            Event::Start => self.phase is Idle,
            Event::Ready(_) => self.phase is AwaitReady,
            Event::Watch(_) => self.phase is AwaitWatch,
            Event::Response(_) => self.phase is Reconnecting || self.phase is Connecting,
            Event::Polled(_) => self.phase is Polling,
        }
    }

    /// The work, waiting for something else.
    pub open spec fn await_phase(self, phase: PhaseState) -> WorkState<C, W, S> {
        WorkState { phase, ..self }
    }

    /// The work, with another set for the `i`-th name.
    pub open spec fn with_set(self, i: int, set: SetState<C, W, S>) -> WorkState<C, W, S> {
        WorkState {
            destinations: self.destinations.update(i, (self.destinations[i].0, set)),
            ..self
        }
    }

    /// The work, with another query for the `i`-th name.
    pub open spec fn with_query(
        self,
        i: int,
        query: Option<DestinationServiceQuery<W, S>>,
    ) -> WorkState<C, W, S> {
        self.with_set(i, SetState { query, ..self.destinations[i].1 })
    }

    /// The work, with one name more, of which nothing is known yet, and its first watch.
    pub open spec fn with_name(
        self,
        authority: (Seq<char>, u16),
        query: Option<DestinationServiceQuery<W, S>>,
        tx: UnboundedSender<Update>,
    ) -> WorkState<C, W, S> {
        WorkState {
            destinations: self.destinations.push(
                (authority, SetState { addrs: Exists::Unknown, query, txs: seq![tx] }),
            ),
            ..self
        }
    }

    /// The work, with the `i`-th name marked and queued to be reconnected.
    pub open spec fn requeue(self, i: int, set: SetState<C, W, S>) -> WorkState<C, W, S> {
        WorkState {
            reconnects: self.reconnects.push(self.destinations[i].0),
            ..self.with_set(
                i,
                SetState { query: Some(DestinationServiceQuery::NeedsReconnect), ..set },
            )
        }
    }

    /// The first name from `from` on whose query is connected.
    pub open spec fn next_connected(self, from: int) -> Option<int>
        decreases self.destinations.len() - from,
    {
        if from >= self.destinations.len() {
            None
        } else if is_connected(self.destinations[from].1) {
            Some(from)
        } else {
            self.next_connected(from + 1)
        }
    }

    /// What follows when the names from `from` on are still to be polled: the next query that is
    /// connected is taken out and polled. Where there is none the round is over: it begins anew
    /// if something must be reconnected and the destination service is ready.
    pub open spec fn poll_from(self, from: int) -> (WorkState<C, W, S>, ActionState<W, S>) {
        match self.next_connected(from) {
            Some(i) => (
                self.with_query(i, None).await_phase(PhaseState::Polling(i)),
                ActionState::Poll(self.destinations[i].1.query->0->rx),
            ),
            None => if self.reconnects.len() == 0 || !self.rpc_ready {
                (self.await_phase(PhaseState::Idle), ActionState::Done)
            } else {
                (self.await_phase(PhaseState::AwaitReady), ActionState::PollReady)
            },
        }
    }

    /// What follows when the destination service was polled. If it is ready, the name that has
    /// waited longest is reconnected; a request to watch a name is polled for only when none
    /// waits. If it is not ready, the names are polled.
    pub open spec fn ready_step<N: Fn(&DnsNameAndPort, &str) -> Option<String>>(
        self,
        readiness: Readiness,
        normalize: N,
        after: WorkState<C, W, S>,
        action: ActionState<W, S>,
    ) -> bool {
        if readiness != Readiness::Ready {
            (after, action) == (WorkState { rpc_ready: false, ..self }).poll_from(0)
        } else if self.reconnects.len() == 0 {
            &&& after == (WorkState { rpc_ready: true, ..self }).await_phase(PhaseState::AwaitWatch)
            &&& action == ActionState::<W, S>::PollWatches
        } else {
            let popped = WorkState {
                rpc_ready: true,
                reconnects: self.reconnects.drop_first(),
                ..self
            };
            exists|i: int, name: Option<Seq<char>>|
                {
                    &&& #[trigger] self.is_at(self.reconnects[0], i)
                    &&& #[trigger] normalizes(
                        normalize,
                        self.reconnects[0],
                        self.namespace,
                        name,
                    )
                    &&& match name {
                        Some(name) => {
                            &&& after == popped.await_phase(PhaseState::Reconnecting(i))
                            &&& action == ActionState::<W, S>::Get(request_to(name))
                        },
                        None => {
                            &&& after == popped.with_query(i, None).await_phase(
                                PhaseState::AwaitReady,
                            )
                            &&& action == ActionState::<W, S>::PollReady
                        },
                    }
                }
        }
    }

    /// What follows when a request to watch a name was polled for. A watch of a name that is known
    /// joins its set; a new name is queried first, if it can be. If there is no request, the names
    /// are polled.
    pub open spec fn watch_step<
        V: Fn(&C) -> Vec<Labeled<SocketAddr>>,
        N: Fn(&DnsNameAndPort, &str) -> Option<String>,
    >(
        self,
        polled: WatchPoll,
        values: V,
        normalize: N,
        after: WorkState<C, W, S>,
        r: Result<ActionState<W, S>, WatchGone>,
    ) -> bool {
        match polled {
            WatchPoll::NotReady | WatchPoll::Closed => {
                r is Ok && (after, r->Ok_0) == self.poll_from(0)
            },
            WatchPoll::Request(authority, tx) => if self.knows(authority@) {
                exists|i: int, set: SetState<C, W, S>|
                    {
                        &&& #[trigger] self.is_at(authority@, i)
                        &&& after == (#[trigger] self.with_set(i, set)).await_phase(
                            PhaseState::AwaitReady,
                        )
                        &&& match r {
                            Ok(action) => {
                                &&& action == ActionState::<W, S>::PollReady
                                &&& joined(self.destinations[i].1, tx, values, set)
                            },
                            Err(_) => {
                                &&& gone(self.destinations[i].1, tx, values)
                                &&& set == self.destinations[i].1
                            },
                        }
                    }
            } else {
                exists|name: Option<Seq<char>>|
                    {
                        &&& #[trigger] normalizes(normalize, authority@, self.namespace, name)
                        &&& r is Ok
                        &&& match name {
                            Some(name) => {
                                &&& after == self.await_phase(
                                    PhaseState::Connecting(authority@, tx),
                                )
                                &&& r->Ok_0 == ActionState::<W, S>::Get(request_to(name))
                            },
                            None => {
                                &&& after == self.with_name(authority@, None, tx).await_phase(
                                    PhaseState::AwaitReady,
                                )
                                &&& r->Ok_0 == ActionState::<W, S>::PollReady
                            },
                        }
                    }
            },
        }
    }

    /// What follows when a request was answered with a response to wait for: that is the name's
    /// query from now on, and the destination service is polled again.
    pub open spec fn response_step(
        self,
        response: W,
        after: WorkState<C, W, S>,
        action: ActionState<W, S>,
    ) -> bool {
        let query = Some(
            DestinationServiceQuery::ConnectedOrConnecting { rx: UpdateRx::Waiting(response) },
        );
        &&& action == ActionState::<W, S>::PollReady
        &&& match self.phase {
            PhaseState::Reconnecting(i) => after == self.with_query(i, query).await_phase(
                PhaseState::AwaitReady,
            ),
            PhaseState::Connecting(authority, tx) => after == self.with_name(
                authority,
                query,
                tx,
            ).await_phase(PhaseState::AwaitReady),
            _ => false,
        }
    }

    /// What follows when the query for a name was polled. An update is applied and the query is
    /// polled again. A query that has nothing for now is put back; one that ended or failed is
    /// queued to be reconnected, and the next modification is to replace what is known. In both
    /// cases the names that follow are polled next.
    pub open spec fn polled_step<F: Fn(CacheOp<C>) -> CacheReply<C>>(
        self,
        event: RxEvent<W, S>,
        run: F,
        after: WorkState<C, W, S>,
        action: ActionState<W, S>,
    ) -> bool {
        let i = self.phase->Polling_0;
        match rx_poll(event) {
            RxPoll::Again(rx) => after == self && action == ActionState::<W, S>::Poll(rx),
            RxPoll::Ready(rx, update) => {
                &&& action == ActionState::<W, S>::Poll(rx)
                &&& exists|set: SetState<C, W, S>|
                    {
                        &&& #[trigger] applied(self.destinations[i].1, update, run, set)
                        &&& after == self.with_set(i, set)
                    }
            },
            RxPoll::NotReady(rx) => (after, action) == self.with_query(
                i,
                Some(DestinationServiceQuery::ConnectedOrConnecting { rx }),
            ).poll_from(i + 1),
            RxPoll::Ended | RxPoll::Failed(_) => exists|set: SetState<C, W, S>|
                {
                    &&& #[trigger] marked(self.destinations[i].1, run, set)
                    &&& (after, action) == self.requeue(i, set).poll_from(i + 1)
                },
        }
    }

    /// What follows an event.
    pub open spec fn step<
        F: Fn(CacheOp<C>) -> CacheReply<C>,
        V: Fn(&C) -> Vec<Labeled<SocketAddr>>,
        N: Fn(&DnsNameAndPort, &str) -> Option<String>,
    >(
        self,
        event: Event<W, S>,
        run: F,
        values: V,
        normalize: N,
        after: WorkState<C, W, S>,
        r: Result<ActionState<W, S>, WatchGone>,
    ) -> bool {
        match event {
            Event::Watch(polled) => self.watch_step(polled, values, normalize, after, r),
            Event::Start => {
                &&& after == self.await_phase(PhaseState::AwaitReady)
                &&& r == Ok::<ActionState<W, S>, WatchGone>(ActionState::PollReady)
            },
            Event::Ready(readiness) => r is Ok && self.ready_step(
                readiness,
                normalize,
                after,
                r->Ok_0,
            ),
            Event::Response(response) => r is Ok && self.response_step(response, after, r->Ok_0),
            Event::Polled(polled) => r is Ok && self.polled_step(polled, run, after, r->Ok_0),
        }
    }
}

/// Searching on finds a connected query, and none before it.
pub(crate) proof fn lemma_next_connected<C, W, S>(s: WorkState<C, W, S>, from: int)
    requires
        0 <= from,
    ensures
        match s.next_connected(from) {
            Some(i) => from <= i < s.destinations.len() && is_connected(s.destinations[i].1),
            None => true,
        },
    decreases s.destinations.len() - from,
{
    if from < s.destinations.len() && !is_connected(s.destinations[from].1) {
        lemma_next_connected(s, from + 1);
    }
}

/// Where the names, the queue and what must be reconnected stay the same, all still fits.
proof fn lemma_same_queue<C, W, S>(
    s: WorkState<C, W, S>,
    t: WorkState<C, W, S>,
    busy: Option<int>,
)
    requires
        s.names_once(),
        s.queue_fits(busy),
        t.reconnects == s.reconnects,
        t.destinations.len() == s.destinations.len(),
        forall|i: int|
            0 <= i < s.destinations.len() ==> (#[trigger] t.destinations[i]).0
                == s.destinations[i].0 && needs_reconnect(t.destinations[i].1) == needs_reconnect(
                s.destinations[i].1,
            ),
    ensures
        t.names_once(),
        t.queue_fits(busy),
{
    assert forall|k: int| 0 <= k < t.reconnects.len() implies t.knows(
        #[trigger] t.reconnects[k],
    ) by {
        assert(s.knows(s.reconnects[k]));
        let i = choose|i: int| s.is_at(s.reconnects[k], i);
        assert(t.is_at(t.reconnects[k], i));
    }
    assert forall|i: int, j: int| 0 <= i < j < t.destinations.len() implies (
    #[trigger] t.destinations[i]).0 != (#[trigger] t.destinations[j]).0 by {
        assert(s.destinations[i].0 != s.destinations[j].0);
    }
    assert forall|i: int| 0 <= i < t.destinations.len() implies (needs_reconnect(
        (#[trigger] t.destinations[i]).1,
    ) <==> t.reconnects.contains(t.destinations[i].0) || busy == Some(i)) by {
        assert(needs_reconnect(s.destinations[i].1) <==> s.reconnects.contains(
            s.destinations[i].0,
        ) || busy == Some(i));
    }
}

/// The name at the head of the queue can be taken up.
proof fn lemma_pop<C, W, S>(s: WorkState<C, W, S>, t: WorkState<C, W, S>, i: int)
    requires
        s.names_once(),
        s.queue_fits(None),
        s.reconnects.len() > 0,
        s.is_at(s.reconnects[0], i),
        t.destinations == s.destinations,
        t.reconnects == s.reconnects.drop_first(),
    ensures
        t.names_once(),
        t.queue_fits(Some(i)),
        !t.reconnects.contains(t.destinations[i].0),
{
    assert forall|k: int| 0 <= k < t.reconnects.len() implies t.knows(
        #[trigger] t.reconnects[k],
    ) by {
        let name = s.reconnects[k + 1];
        assert(t.reconnects[k] == name);
        assert(s.knows(name));
        let j = choose|j: int| s.is_at(name, j);
        assert(t.is_at(t.reconnects[k], j));
    }
    assert forall|j: int| 0 <= j < t.destinations.len() implies (needs_reconnect(
        (#[trigger] t.destinations[j]).1,
    ) <==> t.reconnects.contains(t.destinations[j].0) || Some(i) == Some(j)) by {
        let name = t.destinations[j].0;
        assert(needs_reconnect(s.destinations[j].1) <==> s.reconnects.contains(name));
        if s.reconnects.contains(name) {
            let k = choose|k: int| 0 <= k < s.reconnects.len() && s.reconnects[k] == name;
            if k == 0 {
                assert(j == i);
            } else {
                assert(t.reconnects[k - 1] == name);
            }
        }
        if t.reconnects.contains(name) {
            let k = choose|k: int| 0 <= k < t.reconnects.len() && t.reconnects[k] == name;
            assert(s.reconnects[k + 1] == name);
        }
        if j == i {
            assert(s.reconnects.contains(s.reconnects[0]));
        }
    }
    if t.reconnects.contains(t.destinations[i].0) {
        let k = choose|k: int|
            0 <= k < t.reconnects.len() && t.reconnects[k] == t.destinations[i].0;
        assert(s.reconnects[k + 1] == s.reconnects[0]);
    }
}

/// The name that was being reconnected is done with.
proof fn lemma_reconnected<C, W, S>(
    s: WorkState<C, W, S>,
    i: int,
    query: Option<DestinationServiceQuery<W, S>>,
)
    requires
        s.names_once(),
        s.queue_fits(Some(i)),
        0 <= i < s.destinations.len(),
        !s.reconnects.contains(s.destinations[i].0),
        !(query matches Some(DestinationServiceQuery::NeedsReconnect)),
    ensures
        s.with_query(i, query).names_once(),
        s.with_query(i, query).queue_fits(None),
{
    let t = s.with_query(i, query);
    assert forall|k: int| 0 <= k < t.reconnects.len() implies t.knows(
        #[trigger] t.reconnects[k],
    ) by {
        assert(s.knows(s.reconnects[k]));
        let j = choose|j: int| s.is_at(s.reconnects[k], j);
        assert(t.is_at(t.reconnects[k], j));
    }
    assert forall|a: int, b: int| 0 <= a < b < t.destinations.len() implies (
    #[trigger] t.destinations[a]).0 != (#[trigger] t.destinations[b]).0 by {
        assert(s.destinations[a].0 != s.destinations[b].0);
    }
    assert forall|j: int| 0 <= j < t.destinations.len() implies (needs_reconnect(
        (#[trigger] t.destinations[j]).1,
    ) <==> t.reconnects.contains(t.destinations[j].0)) by {
        assert(needs_reconnect(s.destinations[j].1) <==> s.reconnects.contains(
            s.destinations[j].0,
        ) || Some(i) == Some(j));
    }
}

/// A new name fits in.
proof fn lemma_new_name<C, W, S>(
    s: WorkState<C, W, S>,
    authority: (Seq<char>, u16),
    query: Option<DestinationServiceQuery<W, S>>,
    tx: UnboundedSender<Update>,
)
    requires
        s.names_once(),
        s.queue_fits(None),
        !s.knows(authority),
        !(query matches Some(DestinationServiceQuery::NeedsReconnect)),
    ensures
        s.with_name(authority, query, tx).names_once(),
        s.with_name(authority, query, tx).queue_fits(None),
{
    let t = s.with_name(authority, query, tx);
    let n = s.destinations.len() as int;
    assert forall|k: int| 0 <= k < t.reconnects.len() implies t.knows(
        #[trigger] t.reconnects[k],
    ) by {
        assert(s.knows(s.reconnects[k]));
        let j = choose|j: int| s.is_at(s.reconnects[k], j);
        assert(t.is_at(t.reconnects[k], j));
    }
    assert forall|a: int, b: int| 0 <= a < b < t.destinations.len() implies (
    #[trigger] t.destinations[a]).0 != (#[trigger] t.destinations[b]).0 by {
        if b < n {
            assert(s.destinations[a].0 != s.destinations[b].0);
        } else {
            assert(!s.is_at(authority, a));
        }
    }
    assert forall|j: int| 0 <= j < t.destinations.len() implies (needs_reconnect(
        (#[trigger] t.destinations[j]).1,
    ) <==> t.reconnects.contains(t.destinations[j].0)) by {
        if j < n {
            assert(needs_reconnect(s.destinations[j].1) <==> s.reconnects.contains(
                s.destinations[j].0,
            ));
        } else if t.reconnects.contains(authority) {
            let k = choose|k: int| 0 <= k < t.reconnects.len() && t.reconnects[k] == authority;
            assert(s.knows(s.reconnects[k]));
        }
    }
}

/// A name whose query is out can be queued.
proof fn lemma_requeue<C, W, S>(s: WorkState<C, W, S>, i: int, set: SetState<C, W, S>)
    requires
        s.names_once(),
        s.queue_fits(None),
        0 <= i < s.destinations.len(),
        !needs_reconnect(s.destinations[i].1),
    ensures
        s.requeue(i, set).names_once(),
        s.requeue(i, set).queue_fits(None),
{
    let t = s.requeue(i, set);
    let name = s.destinations[i].0;
    let n = s.reconnects.len() as int;
    assert(!s.reconnects.contains(name));
    assert forall|k: int| 0 <= k < t.reconnects.len() implies t.knows(
        #[trigger] t.reconnects[k],
    ) by {
        if k < n {
            assert(s.knows(s.reconnects[k]));
            let j = choose|j: int| s.is_at(s.reconnects[k], j);
            assert(t.is_at(t.reconnects[k], j));
        } else {
            assert(t.is_at(t.reconnects[k], i));
        }
    }
    assert forall|a: int, b: int| 0 <= a < b < t.destinations.len() implies (
    #[trigger] t.destinations[a]).0 != (#[trigger] t.destinations[b]).0 by {
        assert(s.destinations[a].0 != s.destinations[b].0);
    }
    assert forall|j: int| 0 <= j < t.destinations.len() implies (needs_reconnect(
        (#[trigger] t.destinations[j]).1,
    ) <==> t.reconnects.contains(t.destinations[j].0)) by {
        assert(needs_reconnect(s.destinations[j].1) <==> s.reconnects.contains(
            s.destinations[j].0,
        ));
        if s.reconnects.contains(s.destinations[j].0) {
            let k = choose|k: int|
                0 <= k < s.reconnects.len() && s.reconnects[k] == s.destinations[j].0;
            assert(t.reconnects[k] == t.destinations[j].0);
        }
        if j == i {
            assert(t.reconnects[n] == name);
        } else if t.reconnects.contains(t.destinations[j].0) {
            let k = choose|k: int|
                0 <= k < t.reconnects.len() && t.reconnects[k] == t.destinations[j].0;
            assert(k < n);
            assert(s.reconnects[k] == s.destinations[j].0);
        }
    }
}

/// Polling on keeps the work well formed.
proof fn lemma_poll_from<C, W, S>(s: WorkState<C, W, S>, from: int)
    requires
        0 <= from,
        s.names_once(),
        s.queue_fits(None),
    ensures
        s.poll_from(from).0.well_formed(),
{
    lemma_next_connected(s, from);
    lemma_same_queue(s, s.poll_from(from).0, None);
}

/// Whatever happens, the work stays well formed: no name is entered twice, and every query that
/// must be reconnected is queued for it, or being reconnected.
pub proof fn law_step_keeps_well_formed<
    C,
    W,
    S,
    F: Fn(CacheOp<C>) -> CacheReply<C>,
    V: Fn(&C) -> Vec<Labeled<SocketAddr>>,
    N: Fn(&DnsNameAndPort, &str) -> Option<String>,
>(
    s: WorkState<C, W, S>,
    event: Event<W, S>,
    run: F,
    values: V,
    normalize: N,
    t: WorkState<C, W, S>,
    r: Result<ActionState<W, S>, WatchGone>,
)
    requires
        s.well_formed(),
        s.expects(event),
        s.step(event, run, values, normalize, t, r),
    ensures
        t.well_formed(),
{
    match event {
        Event::Start => {
            lemma_same_queue(s, t, None);
        },
        Event::Ready(readiness) => {
            if readiness != Readiness::Ready {
                let u = WorkState { rpc_ready: false, ..s };
                lemma_same_queue(s, u, None);
                lemma_poll_from(u, 0);
            } else if s.reconnects.len() == 0 {
                lemma_same_queue(s, t, None);
            } else {
                let popped = WorkState {
                    rpc_ready: true,
                    reconnects: s.reconnects.drop_first(),
                    ..s
                };
                let (i, name) = choose|i: int, name: Option<Seq<char>>|
                    {
                        &&& #[trigger] s.is_at(s.reconnects[0], i)
                        &&& #[trigger] normalizes(normalize, s.reconnects[0], s.namespace, name)
                        &&& match name {
                            Some(name) => {
                                &&& t == popped.await_phase(PhaseState::Reconnecting(i))
                                &&& r->Ok_0 == ActionState::<W, S>::Get(request_to(name))
                            },
                            None => {
                                &&& t == popped.with_query(i, None).await_phase(
                                    PhaseState::AwaitReady,
                                )
                                &&& r->Ok_0 == ActionState::<W, S>::PollReady
                            },
                        }
                    };
                lemma_pop(s, popped, i);
                match name {
                    Some(_) => {
                        lemma_same_queue(popped, t, Some(i));
                    },
                    None => {
                        lemma_reconnected(popped, i, None);
                        lemma_same_queue(popped.with_query(i, None), t, None);
                    },
                }
            }
        },
        Event::Watch(polled) => {
            match polled {
                WatchPoll::NotReady | WatchPoll::Closed => {
                    lemma_poll_from(s, 0);
                },
                WatchPoll::Request(authority, tx) => {
                    if s.knows(authority@) {
                        lemma_same_queue(s, t, None);
                    } else {
                        lemma_new_name(s, authority@, None, tx);
                        if t.phase is AwaitReady {
                            lemma_same_queue(s.with_name(authority@, None, tx), t, None);
                        } else {
                            lemma_same_queue(s, t, None);
                            assert(forall|i: int| t.is_at(authority@, i) ==> s.is_at(authority@, i));
                        }
                    }
                },
            }
        },
        Event::Response(response) => {
            let query = Some(
                DestinationServiceQuery::ConnectedOrConnecting { rx: UpdateRx::Waiting(response) },
            );
            match s.phase {
                PhaseState::Reconnecting(i) => {
                    lemma_reconnected(s, i, query);
                    lemma_same_queue(s.with_query(i, query), t, None);
                },
                PhaseState::Connecting(authority, tx) => {
                    lemma_new_name(s, authority, query, tx);
                    lemma_same_queue(s.with_name(authority, query, tx), t, None);
                },
                _ => {},
            }
        },
        Event::Polled(polled) => {
            let i = s.phase->Polling_0;
            match rx_poll(polled) {
                RxPoll::Again(_) => {},
                RxPoll::Ready(_, _) => {
                    lemma_same_queue(s, t, None);
                },
                RxPoll::NotReady(rx) => {
                    let u = s.with_query(
                        i,
                        Some(DestinationServiceQuery::ConnectedOrConnecting { rx }),
                    );
                    lemma_same_queue(s, u, None);
                    lemma_poll_from(u, i + 1);
                },
                RxPoll::Ended | RxPoll::Failed(_) => {
                    let set = choose|set: SetState<C, W, S>|
                        {
                            &&& #[trigger] marked(s.destinations[i].1, run, set)
                            &&& (t, r->Ok_0) == s.requeue(i, set).poll_from(i + 1)
                        };
                    lemma_requeue(s, i, set);
                    lemma_poll_from(s.requeue(i, set), i + 1);
                },
            }
        },
    }
}

impl<C, W, S> DiscoveryWork<C, W, S> {
    /// Work that has not begun: no name is watched.
    pub(crate) fn new(
        default_destination_namespace: String,
        rx: UnboundedReceiver<(DnsNameAndPort, UnboundedSender<Update>)>,
    ) -> (r: Self)
        ensures
            r@ == (WorkState::<C, W, S> {
                namespace: default_destination_namespace@,
                destinations: Seq::empty(),
                reconnects: Seq::empty(),
                rpc_ready: false,
                rx,
                phase: PhaseState::Idle,
            }),
            r@.well_formed(),
    {
        let r = DiscoveryWork {
            default_destination_namespace,
            destinations: Vec::new(),
            reconnects: VecDeque::new(),
            rpc_ready: false,
            rx,
            phase: Phase::Idle,
        };
        assert(r@.destinations =~= Seq::empty());
        assert(r@.reconnects =~= Seq::empty());
        r
    }

    /// The receiver of requests to watch a name.
    pub fn requests(&mut self) -> (r: &mut UnboundedReceiver<
        (DnsNameAndPort, UnboundedSender<Update>),
    >)
        ensures
            *r == old(self)@.rx,
            final(self)@ == (WorkState { rx: *final(r), ..old(self)@ }),
    {
        &mut self.rx
    }

    /// Whether the work waits for this event.
    pub fn is_expecting(&self, event: &Event<W, S>) -> (r: bool)
        ensures
            r == self@.expects(*event),
    {
        match (event, &self.phase) {
            (Event::Start, Phase::Idle) => true,
            (Event::Ready(_), Phase::AwaitReady) => true,
            (Event::Watch(_), Phase::AwaitWatch) => true,
            (Event::Response(_), Phase::Reconnecting(_)) => true,
            (Event::Response(_), Phase::Connecting(_, _)) => true,
            (Event::Polled(_), Phase::Polling(_)) => true,
            _ => false,
        }
    }

    /// The name that the work is at, if any: the one that is being queried, or whose query is
    /// polled.
    pub fn subject(&self) -> (r: Option<&DnsNameAndPort>)
        requires
            self@.well_formed(),
        ensures
            r is Some <==> self@.subject() is Some,
            r matches Some(authority) ==> authority@ == self@.subject()->0,
    {
        match &self.phase {
            Phase::Reconnecting(i) => Some(&self.destinations[*i].authority),
            Phase::Connecting(authority, _) => Some(authority),
            Phase::Polling(i) => Some(&self.destinations[*i].authority),
            _ => None,
        }
    }

    /// Where a name is.
    fn find(&self, authority: &DnsNameAndPort) -> (r: Option<usize>)
        ensures
            match r {
                Some(i) => self@.is_at(authority@, i as int),
                None => !self@.knows(authority@),
            },
    {
        let mut i: usize = 0;
        while i < self.destinations.len()
            invariant
                i <= self.destinations@.len(),
                forall|j: int| 0 <= j < i ==> !self@.is_at(authority@, j),
            decreases self.destinations@.len() - i,
        {
            if self.destinations[i].authority.same_as(authority) {
                return Some(i);
            }
            i = i + 1;
        }
        None
    }

    /// Polls the names from `from` on.
    fn poll_destinations(&mut self, from: usize) -> (r: Action<W, S>)
        ensures
            (final(self)@, r@) == old(self)@.poll_from(from as int),
    {
        let mut i: usize = from;
        while i < self.destinations.len()
            invariant
                from <= i,
                self@ == old(self)@,
                self@.next_connected(from as int) == self@.next_connected(i as int),
            decreases self.destinations@.len() - i,
        {
            let connected = match &self.destinations[i].set.query {
                Some(DestinationServiceQuery::ConnectedOrConnecting { .. }) => true,
                _ => false,
            };
            if connected {
                let entry = &mut self.destinations[i];
                let query = entry.set.query.take();
                self.phase = Phase::Polling(i);
                proof {
                    assert(self@.destinations =~= old(self)@.with_query(
                        i as int,
                        None,
                    ).destinations);
                }
                match query {
                    Some(DestinationServiceQuery::ConnectedOrConnecting { rx }) => {
                        return Action::Poll(rx);
                    },
                    _ => {},
                }
            }
            i = i + 1;
        }
        if self.reconnects.len() == 0 || !self.rpc_ready {
            self.phase = Phase::Idle;
            Action::Done
        } else {
            self.phase = Phase::AwaitReady;
            Action::PollReady
        }
    }

    /// Takes the next name that must be reconnected from the queue; one that is no longer watched
    /// is passed over.
    fn poll_reconnect(&mut self) -> (r: Option<usize>)
        ensures
            match r {
                Some(i) => exists|n: int|
                    {
                        &&& #[trigger] old(self)@.is_next(n)
                        &&& old(self)@.is_at(old(self)@.reconnects[n], i as int)
                        &&& final(self)@ == (WorkState {
                            reconnects: old(self)@.reconnects.skip(n + 1),
                            ..old(self)@
                        })
                    },
                None => {
                    &&& forall|m: int|
                        0 <= m < old(self)@.reconnects.len() ==> !old(self)@.knows(
                            #[trigger] old(self)@.reconnects[m],
                        )
                    &&& final(self)@ == (WorkState { reconnects: Seq::empty(), ..old(self)@ })
                },
            },
    {
        let ghost before = self@;
        let ghost mut n: int = 0;
        assert(before.reconnects.skip(0) =~= before.reconnects);
        while self.reconnects.len() > 0
            invariant
                before == old(self)@,
                0 <= n <= before.reconnects.len(),
                self@ == (WorkState { reconnects: before.reconnects.skip(n), ..before }),
                forall|m: int| 0 <= m < n ==> !before.knows(#[trigger] before.reconnects[m]),
            decreases self.reconnects@.len(),
        {
            let ghost left = self@.reconnects;
            match self.reconnects.pop_front() {
                Some(authority) => {
                    assert(self@.reconnects =~= left.drop_first());
                    assert(before.reconnects.skip(n).drop_first() =~= before.reconnects.skip(
                        n + 1,
                    ));
                    assert(authority@ == left[0]);
                    assert(left[0] == before.reconnects[n]);
                    let found = self.find(&authority);
                    if let Some(i) = found {
                        assert(before.is_at(authority@, i as int));
                        assert(before.is_next(n));
                        return found;
                    }
                    proof {
                        assert forall|j: int| !before.is_at(authority@, j) by {
                            assert(!self@.is_at(authority@, j));
                        }
                        n = n + 1;
                    }
                },
                None => {},
            }
        }
        assert(self@.reconnects =~= Seq::empty());
        None
    }

    /// Takes up whether the destination service is ready.
    fn on_ready<N>(&mut self, readiness: Readiness, normalize: &N) -> (r: Action<W, S>)
        where N: Fn(&DnsNameAndPort, &str) -> Option<String>
        requires
            normalizes_all(*normalize),
            old(self)@.well_formed(),
            old(self)@.phase is AwaitReady,
        ensures
            old(self)@.ready_step(readiness, *normalize, final(self)@, r@),
    {
        match readiness {
            Readiness::Ready => {
                self.rpc_ready = true;
            },
            Readiness::NotReady | Readiness::Failed => {
                self.rpc_ready = false;
                return self.poll_destinations(0);
            },
        }
        let ghost before = self@;
        proof {
            lemma_same_queue(old(self)@, before, None);
        }
        proof {
            if before.reconnects.len() > 0 {
                assert(before.knows(before.reconnects[0]));
                assert(forall|n: int| before.is_next(n) ==> n == 0);
                assert(before.reconnects.skip(1) =~= before.reconnects.drop_first());
            }
        }
        // handle any pending reconnects first
        let i = match self.poll_reconnect() {
            Some(i) => i,
            None => {
                assert(before.reconnects =~= Seq::empty());
                self.phase = Phase::AwaitWatch;
                return Action::PollWatches;
            },
        };
        let ghost popped = self@;
        let request = connect_maybe(
            self.default_destination_namespace.as_str(),
            &self.destinations[i].authority,
            normalize,
        );
        assert(old(self)@.is_at(old(self)@.reconnects[0], i as int));
        match request {
            Some(request) => {
                self.phase = Phase::Reconnecting(i);
                Action::Get(request)
            },
            None => {
                let entry = &mut self.destinations[i];
                entry.set.query = None;
                self.phase = Phase::AwaitReady;
                assert(self@.destinations =~= popped.with_query(i as int, None).destinations);
                Action::PollReady
            },
        }
    }

    /// Enters a new name.
    fn enter(
        &mut self,
        authority: DnsNameAndPort,
        query: Option<DestinationServiceQuery<W, S>>,
        tx: UnboundedSender<Update>,
    )
        ensures
            final(self)@ == old(self)@.with_name(authority@, query, tx),
    {
        let mut txs: Vec<UnboundedSender<Update>> = Vec::new();
        txs.push(tx);
        let set = DestinationSet { addrs: Exists::Unknown, query, txs };
        assert(set@.txs =~= seq![tx]);
        self.destinations.push(Entry { authority, set });
        assert(self@.destinations =~= old(self)@.with_name(authority@, query, tx).destinations);
    }

    /// Takes up what came of polling for a request to watch a name.
    fn on_watch<V, N>(&mut self, polled: WatchPoll, values: &V, normalize: &N) -> (r: Result<
        Action<W, S>,
        WatchGone,
    >)
        where
            V: Fn(&C) -> Vec<Labeled<SocketAddr>>,
            N: Fn(&DnsNameAndPort, &str) -> Option<String>,
        requires
            reads::<C, V>(*values),
            normalizes_all(*normalize),
            old(self)@.well_formed(),
            old(self)@.phase is AwaitWatch,
        ensures
            old(self)@.watch_step(polled, *values, *normalize, final(self)@, result_state(r)),
    {
        let (authority, tx) = match polled {
            WatchPoll::Request(authority, tx) => (authority, tx),
            WatchPoll::NotReady | WatchPoll::Closed => return Ok(self.poll_destinations(0)),
        };
        match self.find(&authority) {
            Some(i) => {
                let entry = &mut self.destinations[i];
                let outcome = entry.set.join(tx, values);
                self.phase = Phase::AwaitReady;
                proof {
                    let set = self@.destinations[i as int].1;
                    assert(self@.destinations =~= old(self)@.with_set(
                        i as int,
                        set,
                    ).destinations);
                    assert(self@ == old(self)@.with_set(i as int, set).await_phase(
                        PhaseState::AwaitReady,
                    ));
                }
                match outcome {
                    Ok(()) => Ok(Action::PollReady),
                    Err(gone) => Err(gone),
                }
            },
            None => {
                let request = connect_maybe(
                    self.default_destination_namespace.as_str(),
                    &authority,
                    normalize,
                );
                match request {
                    Some(request) => {
                        self.phase = Phase::Connecting(authority, tx);
                        Ok(Action::Get(request))
                    },
                    None => {
                        self.enter(authority, None, tx);
                        self.phase = Phase::AwaitReady;
                        Ok(Action::PollReady)
                    },
                }
            },
        }
    }

    /// Takes up the response to a request.
    fn on_response(&mut self, response: W) -> (r: Action<W, S>)
        requires
            old(self)@.well_formed(),
            old(self)@.phase is Reconnecting || old(self)@.phase is Connecting,
        ensures
            old(self)@.response_step(response, final(self)@, r@),
    {
        let query = Some(
            DestinationServiceQuery::ConnectedOrConnecting { rx: UpdateRx::Waiting(response) },
        );
        let mut phase = Phase::AwaitReady;
        std::mem::swap(&mut self.phase, &mut phase);
        match phase {
            Phase::Reconnecting(i) => {
                let entry = &mut self.destinations[i];
                entry.set.query = query;
                assert(self@.destinations =~= old(self)@.with_query(
                    i as int,
                    query,
                ).destinations);
            },
            Phase::Connecting(authority, tx) => {
                self.enter(authority, query, tx);
            },
            _ => {},
        }
        Action::PollReady
    }

    /// Takes up what came of polling the query for a name.
    fn on_polled<F>(&mut self, event: RxEvent<W, S>, run: &F) -> (r: Action<W, S>)
        where F: Fn(CacheOp<C>) -> CacheReply<C>
        requires
            runs::<C, F>(*run),
            old(self)@.well_formed(),
            old(self)@.phase is Polling,
        ensures
            old(self)@.polled_step(event, *run, final(self)@, r@),
    {
        let i = match &self.phase {
            Phase::Polling(i) => *i,
            _ => return Action::Done,
        };
        let entry = &mut self.destinations[i];
        let polled = entry.set.poll_destination(UpdateRx::poll(event), run);
        let query = match polled {
            SetPoll::Poll(rx) => {
                proof {
                    let set = self@.destinations[i as int].1;
                    assert(self@.destinations =~= old(self)@.with_set(
                        i as int,
                        set,
                    ).destinations);
                    assert(self@ == old(self)@.with_set(i as int, set));
                    assert(old(self)@.with_set(i as int, old(self)@.destinations[i as int].1)
                        == old(self)@) by {
                        assert(old(self)@.destinations.update(
                            i as int,
                            old(self)@.destinations[i as int],
                        ) =~= old(self)@.destinations);
                    }
                }
                return Action::Poll(rx);
            },
            SetPoll::Return(query) => query,
        };
        let lost = match &query {
            DestinationServiceQuery::NeedsReconnect => true,
            DestinationServiceQuery::ConnectedOrConnecting { .. } => false,
        };
        let ghost mid = self@;
        assert(mid.destinations =~= old(self)@.destinations);
        let entry = &mut self.destinations[i];
        if lost {
            entry.set.reset_on_next_modification(run);
            let ghost set = entry.set@;
            self.reconnects.push_back(self.destinations[i].authority.clone());
            let entry = &mut self.destinations[i];
            entry.set.query = Some(query);
            proof {
                assert(marked(old(self)@.destinations[i as int].1, *run, set));
                assert(self@.destinations =~= old(self)@.requeue(i as int, set).destinations);
                assert(self@.reconnects =~= old(self)@.requeue(i as int, set).reconnects);
            }
        } else {
            entry.set.query = Some(query);
            assert(self@.destinations =~= old(self)@.with_query(
                i as int,
                Some(query),
            ).destinations);
        }
        assert(i < self.destinations.len());
        self.poll_destinations(i + 1)
    }

    /// Takes up what came of the last action, and says what is to be done next.
    ///
    /// A round asks whether the destination service is ready, reconnects what must be reconnected,
    /// takes up requests to watch a name, and then polls every query. Rounds follow each other
    /// until nothing is left to reconnect, or the destination service is not ready: otherwise
    /// streams that were found disconnected would wait while the work sleeps.
    ///
    /// The caller's functions are used as they come: `run` carries out an operation on a cache,
    /// `values` lists what a cache holds, and `normalize` makes the name to query of an authority
    /// and the default namespace, or says that there is none.
    pub fn poll_rpc<F, V, N>(
        &mut self,
        event: Event<W, S>,
        run: &F,
        values: &V,
        normalize: &N,
    ) -> (r: Result<Action<W, S>, WatchGone>)
        where
            F: Fn(CacheOp<C>) -> CacheReply<C>,
            V: Fn(&C) -> Vec<Labeled<SocketAddr>>,
            N: Fn(&DnsNameAndPort, &str) -> Option<String>,
        requires
            runs::<C, F>(*run),
            reads::<C, V>(*values),
            normalizes_all(*normalize),
            old(self)@.well_formed(),
            old(self)@.expects(event),
        ensures
            old(self)@.step(event, *run, *values, *normalize, final(self)@, result_state(r)),
            final(self)@.well_formed(),
    {
        let r = match event {
            Event::Start => {
                self.phase = Phase::AwaitReady;
                Ok(Action::PollReady)
            },
            Event::Ready(readiness) => Ok(self.on_ready(readiness, normalize)),
            Event::Watch(polled) => self.on_watch(polled, values, normalize),
            Event::Response(response) => Ok(self.on_response(response)),
            Event::Polled(polled) => Ok(self.on_polled(polled, run)),
        };
        proof {
            law_step_keeps_well_formed(
                old(self)@,
                event,
                *run,
                *values,
                *normalize,
                self@,
                result_state(r),
            );
        }
        r
    }
}

/// The outcome of a step, as contracts speak of it.
pub open spec fn result_state<W, S>(r: Result<Action<W, S>, WatchGone>) -> Result<
    ActionState<W, S>,
    WatchGone,
> {
    match r {
        Ok(action) => Ok(action@),
        Err(gone) => Err(gone),
    }
}

} // verus!
