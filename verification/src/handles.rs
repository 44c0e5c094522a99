//! What the handles, the queries and the labels are for, told by their calls.
use crate::addr::SocketAddr;
use crate::authority::DnsNameAndPort;
use crate::cache::Exists;
use crate::channel::{feeds, posted, requested, serves};
use crate::labels::{
    hash_pair, hash_pairs, is_nth, labels_in, lists_labels, others_in, DstLabels, LabelRequest,
    Labeled, Update,
};
use crate::pb::Destination;
use crate::query::{
    connect_maybe, normalizes, request_for, request_to, RxError, RxEvent, RxPoll, UpdateRx,
};
use crate::rounds::{lemma_was_normalized, was_normalized};
use crate::watch::{new, Async, Background, Bind, Change, Discovery, Watch, WorkGone};
use crate::work::{DiscoveryWork, PhaseState};
use futures::sync::mpsc::{UnboundedReceiver, UnboundedSender};
use std::hash::Hasher;
use vstd::prelude::*;

verus! {

/// What is polled of an `UpdateRx` is what it holds had: an update comes with the stream that had
/// it, nothing for now with what has nothing, and a failure says where it was.
pub proof fn law_rx_hands_on_what_it_holds<W, S>(event: RxEvent<W, S>, r: RxPoll<W, S>)
    requires
        call_ensures(UpdateRx::<W, S>::poll, (event,), r),
    ensures
        match r {
            RxPoll::Again(rx) => rx is Streaming && event == RxEvent::<W, S>::Response(
                rx->Streaming_0,
            ),
            RxPoll::Ready(rx, update) => rx is Streaming && event == RxEvent::<W, S>::Item(
                rx->Streaming_0,
                update,
            ),
            RxPoll::Ended => event is StreamEnded,
            RxPoll::NotReady(rx) => event == match rx {
                UpdateRx::Waiting(response) => RxEvent::<W, S>::ResponseNotReady(response),
                UpdateRx::Streaming(stream) => RxEvent::StreamNotReady(stream),
            },
            RxPoll::Failed(RxError::Future) => event is ResponseFailed,
            RxPoll::Failed(RxError::Stream) => event is StreamFailed,
        },
{
}

/// A query is asked for exactly if the name can be normalized: for the normalized name, under the
/// scheme `k8s`.
pub proof fn law_request_is_for_the_normalized_name(name: Option<String>, r: Option<Destination>)
    requires
        call_ensures(request_for, (name,), r),
    ensures
        r is Some <==> name is Some,
        r is Some ==> r->0.scheme@ == "k8s"@ && r->0.path@ == name->0@,
{
}

/// An authority is normalized in the given namespace, and what comes of that is queried.
pub proof fn law_authority_is_normalized_and_queried<
    N: Fn(&DnsNameAndPort, &str) -> Option<String>,
>(namespace: &str, authority: &DnsNameAndPort, normalize: &N, r: Option<Destination>)
    requires
        call_ensures(connect_maybe::<N>, (namespace, authority, normalize), r),
    ensures
        exists|n: Option<String>|
            {
                &&& #[trigger] was_normalized(
                    *normalize,
                    (authority.host@, authority.port),
                    namespace@,
                    n,
                )
                &&& r is Some <==> n is Some
                &&& r is Some ==> r->0.scheme@ == "k8s"@ && r->0.path@ == n->0@
            },
{
    let name: Option<Seq<char>> = if r is Some {
        let name = choose|name: Seq<char>| #[trigger]
            normalizes(*normalize, authority@, namespace@, Some(name))
                && r->0@ == request_to(name);
        Some(name)
    } else {
        None
    };
    let n = lemma_was_normalized(*normalize, authority@, namespace@, name);
}

/// Two authorities are the same exactly if their hosts are and their ports are.
pub proof fn law_same_authority(a: &DnsNameAndPort, b: &DnsNameAndPort, r: bool)
    requires
        call_ensures(DnsNameAndPort::same_as, (a, b), r),
    ensures
        r <==> a.host@ == b.host@ && a.port == b.port,
{
}

/// What a watch makes of an update is what the update says: a service comes only where an endpoint
/// did, is what binding that endpoint gave, and has its labels; an address goes only where an
/// endpoint did; and an error comes only of a channel that failed or an endpoint that could not be
/// bound.
pub proof fn law_watch_makes_of_an_update_what_it_says<B: Bind>(
    watch: &Watch<B>,
    polled: Result<Async<Option<Update>>, ()>,
    r: Result<Async<Change<SocketAddr, LabelRequest<B::Service>>>, ()>,
)
    requires
        polled != Ok::<Async<Option<Update>>, ()>(Async::Ready(None)),
        call_ensures(Watch::<B>::poll, (watch, polled), r),
    ensures
        match r {
            Ok(Async::Ready(Change::Insert(addr, service))) => {
                &&& service.labels is Some
                &&& polled == Ok::<Async<Option<Update>>, ()>(
                    Async::Ready(
                        Some(
                            Update::Insert(
                                Labeled { metric_labels: service.labels->0, inner: addr },
                            ),
                        ),
                    ),
                )
                &&& exists|bound: Result<B::Service, B::BindError>| #[trigger]
                    call_ensures(B::bind, (&watch.bind, &addr), bound) && bound is Ok && bound->Ok_0
                        == service.inner
            },
            Ok(Async::Ready(Change::Remove(addr))) => {
                &&& polled matches Ok(Async::Ready(Some(Update::Remove(labeled))))
                &&& labeled.inner == addr
            },
            Ok(Async::NotReady) => polled == Ok::<Async<Option<Update>>, ()>(Async::NotReady),
            Err(_) => polled is Err || {
                &&& polled matches Ok(Async::Ready(Some(Update::Insert(labeled))))
                &&& exists|bound: Result<B::Service, B::BindError>| #[trigger]
                    call_ensures(B::bind, (&watch.bind, &labeled.inner), bound) && bound is Err
            },
        },
{
}

/// The two handles belong together: what the one requests arrives at the other, nothing has been
/// requested yet, and the namespace is kept.
pub proof fn law_handles_belong_together(namespace: String, r: (Discovery, Background))
    requires
        call_ensures(new, (namespace,), r),
    ensures
        serves(r.0.tx, r.1.rx),
        requested(r.0.tx).len() == 0,
        r.1.default_destination_namespace@ == namespace@,
{
}

/// Work begins with the namespace and the requests of its handle, idle, and with nothing watched and
/// nothing queued.
pub proof fn law_work_begins_with_nothing<C, W, S>(
    background: Background,
    r: DiscoveryWork<C, W, S>,
)
    requires
        call_ensures(Background::work::<C, W, S>, (background,), r),
    ensures
        r@.namespace == background.default_destination_namespace@,
        r@.rx == background.rx,
        r@.destinations.len() == 0,
        r@.reconnects.len() == 0,
        !r@.rpc_ready,
        r@.phase == PhaseState::Idle,
        r@.well_formed(),
{
}

/// A clone of the handle requests from the same work.
pub proof fn law_cloned_handle_serves_the_same_work(discovery: &Discovery, r: Discovery)
    requires
        call_ensures(<Discovery as Clone>::clone, (discovery,), r),
    ensures
        requested(r.tx).len() == 0,
        forall|rx: UnboundedReceiver<(DnsNameAndPort, UnboundedSender<Update>)>|
            #[trigger] serves(r.tx, rx) == serves(discovery.tx, rx),
{
}

/// Resolving a name requests just that name of the work, once; where the request is taken, the watch
/// listens to the channel that the request carries, on which nothing was sent before, and keeps what
/// binds; and there is no watch only where the request was refused.
pub proof fn law_resolving_requests_the_name<B>(authority: &DnsNameAndPort, bind: B)
    ensures
        forall|discovery: &mut Discovery, r: Result<Watch<B>, WorkGone>|
            #[trigger] call_ensures(
                Discovery::resolve::<B>,
                (discovery, authority, bind),
                r,
            ) ==> {
                let (before, after) = (
                    requested((*discovery).tx),
                    requested((*final(discovery)).tx),
                );
                &&& after.len() == before.len() + 1
                &&& after.drop_last() == before
                &&& after.last().0.0.host@ == authority.host@
                &&& after.last().0.0.port == authority.port
                &&& after.last().1 <==> r is Ok
                &&& posted(after.last().0.1).len() == 0
                &&& r is Ok ==> feeds(after.last().0.1, r->Ok_0.rx) && r->Ok_0.bind == bind
                &&& forall|rx: UnboundedReceiver<(DnsNameAndPort, UnboundedSender<Update>)>|
                    #[trigger] serves((*final(discovery)).tx, rx) == serves((*discovery).tx, rx)
            },
{
    assert forall|discovery: &mut Discovery, r: Result<Watch<B>, WorkGone>|
        #[trigger] call_ensures(
            Discovery::resolve::<B>,
            (discovery, authority, bind),
            r,
        ) implies requested((*final(discovery)).tx).drop_last() == requested((*discovery).tx) by {
        let before = requested((*discovery).tx);
        let (name, tx) = choose|name: DnsNameAndPort, tx: UnboundedSender<Update>|
            {
                &&& requested((*final(discovery)).tx) == #[trigger] before.push(
                    ((name, tx), r is Ok),
                )
                &&& name@ == authority@
                &&& posted(tx).len() == 0
                &&& r matches Ok(watch) ==> feeds(tx, watch.rx)
            };
        assert(before.push(((name, tx), r is Ok)).drop_last() =~= before);
    }
}

/// There are no labels exactly if neither the set nor the endpoint has one.
pub proof fn law_labels_are_empty_without_any(labels: &DstLabels, r: bool)
    requires
        call_ensures(DstLabels::is_empty, (labels,), r),
    ensures
        r <==> (forall|k: String| !labels.set@.contains_key(k)) && (forall|k: String|
            !labels.addr@.contains_key(k)),
{
    if r {
        assert(labels.set@ =~= Map::empty());
        assert(labels.addr@ =~= Map::empty());
    } else {
        if forall|k: String| !labels.set@.contains_key(k) {
            assert(labels.set@.dom() =~= Set::empty());
        }
        if forall|k: String| !labels.addr@.contains_key(k) {
            assert(labels.addr@.dom() =~= Set::empty());
        }
    }
}

/// Whether `pair` is a label of `map`: a name and its value.
pub open spec fn is_entry(pair: (&str, &str), map: Map<String, String>) -> bool {
    exists|k: String| #[trigger]
        map.contains_key(k) && pair.0@ == k@ && pair.1@ == map[k]@
}

/// Every label is listed under its name and with its value, those of the set before those of the
/// endpoint, and nothing else is listed.
pub proof fn law_every_label_is_listed(labels: &DstLabels, r: Vec<(&str, &str)>)
    requires
        call_ensures(DstLabels::pairs, (labels,), r),
    ensures
        r@.len() == labels.set@.dom().len() + labels.addr@.dom().len(),
        forall|k: String| #[trigger]
            labels.set@.contains_key(k) ==> exists|i: int|
                0 <= i < labels.set@.dom().len() && (#[trigger] r@[i]).0@ == k@ && r@[i].1@
                    == labels.set@[k]@,
        forall|k: String| #[trigger]
            labels.addr@.contains_key(k) ==> exists|i: int|
                labels.set@.dom().len() <= i < r@.len() && (#[trigger] r@[i]).0@ == k@ && r@[i].1@
                    == labels.addr@[k]@,
        forall|i: int|
            0 <= i < labels.set@.dom().len() ==> is_entry(#[trigger] r@[i], labels.set@),
        forall|i: int|
            labels.set@.dom().len() <= i < r@.len() ==> is_entry(#[trigger] r@[i], labels.addr@),
{
    let pairs = r@.map_values(|p: (&str, &str)| (p.0@, p.1@));
    let n = labels.set@.dom().len() as int;
    assert(lists_labels(pairs, *labels));
    let (set, addr) = (pairs.take(n), pairs.skip(n));
    assert(set.len() + addr.len() == pairs.len());
    assert forall|k: String| #[trigger] labels.set@.contains_key(k) implies exists|i: int|
        0 <= i < labels.set@.dom().len() && (#[trigger] r@[i]).0@ == k@ && r@[i].1@
            == labels.set@[k]@ by {
        assert(set.contains((k@, labels.set@[k]@)));
        let i = choose|i: int| 0 <= i < set.len() && set[i] == (k@, labels.set@[k]@);
        assert(pairs[i] == (r@[i].0@, r@[i].1@));
    }
    assert forall|k: String| #[trigger] labels.addr@.contains_key(k) implies exists|i: int|
        labels.set@.dom().len() <= i < r@.len() && (#[trigger] r@[i]).0@ == k@ && r@[i].1@
            == labels.addr@[k]@ by {
        assert(addr.contains((k@, labels.addr@[k]@)));
        let i = choose|i: int| 0 <= i < addr.len() && addr[i] == (k@, labels.addr@[k]@);
        assert(pairs[n + i] == (r@[n + i].0@, r@[n + i].1@));
    }
    assert forall|i: int| 0 <= i < labels.set@.dom().len() implies is_entry(
        #[trigger] r@[i],
        labels.set@,
    ) by {
        let pair = set[i];
        assert(pair == (r@[i].0@, r@[i].1@));
        let k = choose|k: String| #[trigger]
            labels.set@.contains_key(k) && pair == (k@, labels.set@[k]@);
        assert(labels.set@.contains_key(k));
    }
    assert forall|i: int| labels.set@.dom().len() <= i < r@.len() implies is_entry(
        #[trigger] r@[i],
        labels.addr@,
    ) by {
        let m = i - n;
        let pair = addr[m];
        assert(pair == (r@[i].0@, r@[i].1@));
        let k = choose|k: String| #[trigger]
            labels.addr@.contains_key(k) && pair == (k@, labels.addr@[k]@);
        assert(labels.addr@.contains_key(k));
    }
}

/// A labeled service labels each request with its labels, and takes nothing else from it; one
/// without labels leaves the request alone.
pub proof fn law_request_is_labeled<T>(service: &LabelRequest<T>)
    ensures
        forall|extensions: &mut http::Extensions|
            #[trigger] call_ensures(LabelRequest::<T>::label, (service, extensions), ()) ==> {
                &&& labels_in(*final(extensions)) == if service.labels is Some {
                    service.labels
                } else {
                    labels_in(*extensions)
                }
                &&& others_in(*final(extensions)) == others_in(*extensions)
            },
{
}

/// A service is made with just the labels that it is given.
pub proof fn law_service_has_the_labels_it_is_given<T>(
    labels: DstLabels,
    inner: T,
    labeled: LabelRequest<T>,
    plain: LabelRequest<T>,
)
    requires
        call_ensures(LabelRequest::<T>::new, (labels, inner), labeled),
        call_ensures(LabelRequest::<T>::none, (inner,), plain),
    ensures
        labeled == (LabelRequest { labels: Some(labels), inner }),
        plain == (LabelRequest { labels: None, inner }),
{
}

/// A clone of labels is the same labels.
pub proof fn law_cloned_labels_are_the_same(labels: &DstLabels, r: DstLabels)
    requires
        call_ensures(<DstLabels as Clone>::clone, (labels,), r),
    ensures
        r.set == labels.set,
        r.addr == labels.addr,
{
}

/// What is taken out is what was there, and nothing is known afterwards.
pub proof fn law_taking_leaves_nothing_known<C>()
    ensures
        forall|exists: &mut Exists<C>, r: Exists<C>|
            #[trigger] call_ensures(Exists::<C>::take, (exists,), r) ==> r == *exists
                && *final(exists) is Unknown,
{
}

/// Whether `pair` is the `k`-th of `pairs`.
pub open spec fn comes_at(pairs: Seq<(&str, &str)>, k: int, pair: (&str, &str)) -> bool {
    0 <= k < pairs.len() && pairs[k] == pair
}

/// Pairs are fed to a hasher in their order, each once and nothing else.
pub proof fn law_hasher_is_fed_each_pair<H: Hasher>(pairs: &Vec<(&str, &str)>)
    ensures
        forall|state: &mut H|
            #[trigger] call_ensures(hash_pairs::<H>, (pairs, state), ()) ==> exists|
                states: Seq<H>,
            |
                {
                    &&& #[trigger] states.len() == pairs@.len() + 1
                    &&& states[0] == *state
                    &&& states[pairs@.len() as int] == *final(state)
                    &&& forall|k: int, pair: (&str, &str)| #[trigger]
                        comes_at(pairs@, k, pair) ==> exists|p: &(&str, &str), m: &mut H|
                            #![trigger call_ensures(hash_pair::<H>, (p, m), ())]
                            *p == pair && *m == states[k] && *final(m) == states[k + 1]
                                && call_ensures(hash_pair::<H>, (p, m), ())
                },
{
    assert(forall|k: int, pair: (&str, &str)| #[trigger]
        comes_at(pairs@, k, pair) ==> is_nth(pairs@, k, pair));
}

/// A clone of an endpoint is the same endpoint, under the same labels.
pub proof fn law_cloned_endpoint_is_the_same(labeled: &Labeled<SocketAddr>, r: Labeled<SocketAddr>)
    requires
        call_ensures(<Labeled<SocketAddr> as Clone>::clone, (labeled,), r),
    ensures
        r == *labeled,
{
}

/// A clone of a service has the same labels, and a clone of what it labels.
pub proof fn law_cloned_service_has_the_same_labels<T: Clone>(
    service: &LabelRequest<T>,
    r: LabelRequest<T>,
)
    requires
        call_ensures(<LabelRequest<T> as Clone>::clone, (service,), r),
    ensures
        r.labels == service.labels,
        cloned(service.inner, r.inner),
{
}

/// A clone of an authority is the same authority.
pub proof fn law_cloned_authority_is_the_same(authority: &DnsNameAndPort, r: DnsNameAndPort)
    requires
        call_ensures(<DnsNameAndPort as Clone>::clone, (authority,), r),
    ensures
        r.host@ == authority.host@,
        r.port == authority.port,
{
}

} // verus!
