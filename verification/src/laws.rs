//! What holds of the library as a whole.
//!
//! A watch learns of endpoints by updates. How updates add up is a matter of reading them: a
//! reading starts from some state and takes one update after the other. The laws hold of every
//! reading, such as that of the endpoints by address.
use crate::addr::SocketAddr;
use crate::authority::DnsNameAndPort;
use crate::cache::{answers, is_new, updates_for, CacheOp, CacheReply, Exists};
use crate::channel::{attempted, feeds, posted, taken_last};
use crate::labels::{lists, lists_labels, DstLabels, LabelRequest, Labeled, Update};
use crate::pb::{PbUpdate, PbUpdate2};
use crate::query::{rx_poll, DestinationServiceQuery, RxEvent, RxPoll};
use crate::set::{
    added, all_attempted, applied, broadcast_all, broadcast_one, emptied, gone, greeted, holds,
    joined, labeled_all, marked, sock_addrs, SetState, WatchGone,
};
use crate::watch::{taken_up, Async, Bind, Change};
use crate::work::{
    law_step_keeps_well_formed, lemma_next_connected, needs_reconnect, ActionState, Event,
    PhaseState, Readiness, WatchPoll, WorkState,
};
use futures::sync::mpsc::{UnboundedReceiver, UnboundedSender};
use vstd::prelude::*;

verus! {

/// The reading by address: an insertion gives an address its labels, a removal forgets it.
pub open spec fn by_address(
    known: Map<SocketAddr, DstLabels>,
    update: Update,
) -> Map<SocketAddr, DstLabels> {
    match update {
        Update::Insert(labeled) => known.insert(labeled.inner, labeled.metric_labels),
        Update::Remove(labeled) => known.remove(labeled.inner),
    }
}

/// The labels that services have, by address, after one change to the services.
pub open spec fn after_change<T>(
    known: Map<SocketAddr, DstLabels>,
    change: Change<SocketAddr, LabelRequest<T>>,
) -> Map<SocketAddr, DstLabels> {
    match change {
        Change::Insert(addr, service) => known.insert(addr, service.labels->0),
        Change::Remove(addr) => known.remove(addr),
    }
}

/// A watch passes on what it is told: the change that it makes of an update does to the services
/// what the update says of the endpoints, and a service that is inserted has labels.
pub proof fn law_watch_passes_on_what_it_is_told<B: Bind>(
    bind: B,
    update: Update,
    change: Change<SocketAddr, LabelRequest<B::Service>>,
    known: Map<SocketAddr, DstLabels>,
)
    requires
        taken_up(bind, Ok(Async::Ready(Some(update))), Ok(Async::Ready(change))),
    ensures
        after_change(known, change) == by_address(known, update),
        change matches Change::Insert(_, service) ==> service.labels is Some,
{
}

/// Few labels are listed in one way only: where a set and an endpoint have at most one label each,
/// whatever lists them, for a reader or for a hasher, lists the same pairs in the same order.
pub proof fn law_few_labels_are_listed_in_one_way(
    a: DstLabels,
    b: DstLabels,
    x: Seq<(Seq<char>, Seq<char>)>,
    y: Seq<(Seq<char>, Seq<char>)>,
)
    requires
        a.set@ == b.set@,
        a.addr@ == b.addr@,
        a.set@.dom().len() <= 1,
        a.addr@.dom().len() <= 1,
        lists_labels(x, a),
        lists_labels(y, b),
    ensures
        x == y,
{
    let n = a.set@.dom().len() as int;
    lemma_one_entry_is_listed_in_one_way(a.set@, x.take(n), y.take(n));
    lemma_one_entry_is_listed_in_one_way(a.addr@, x.skip(n), y.skip(n));
    assert(x =~= x.take(n) + x.skip(n));
    assert(y =~= y.take(n) + y.skip(n));
}

/// A map of at most one entry is listed in one way only.
proof fn lemma_one_entry_is_listed_in_one_way(
    map: Map<String, String>,
    x: Seq<(Seq<char>, Seq<char>)>,
    y: Seq<(Seq<char>, Seq<char>)>,
)
    requires
        map.dom().len() <= 1,
        lists(x, map),
        lists(y, map),
    ensures
        x == y,
{
    if x.len() == 1 {
        let k = choose|k: String| #[trigger] map.contains_key(k) && x[0] == (k@, map[k]@);
        assert(y.contains((k@, map[k]@)));
    }
    assert(x =~= y);
}

/// Whether `change` says of the services what `update` says of an endpoint: what came or went is at
/// the same address, and a service that came has the endpoint's labels.
pub open spec fn tells<T>(change: Change<SocketAddr, LabelRequest<T>>, update: Update) -> bool {
    match (change, update) {
        (Change::Insert(addr, service), Update::Insert(labeled)) => {
            addr == labeled.inner && service.labels == Some(labeled.metric_labels)
        },
        (Change::Remove(addr), Update::Remove(labeled)) => addr == labeled.inner,
        _ => false,
    }
}

/// The labels that services have, by address, after changes to the services.
pub open spec fn after_changes<T>(
    known: Map<SocketAddr, DstLabels>,
    changes: Seq<Change<SocketAddr, LabelRequest<T>>>,
) -> Map<SocketAddr, DstLabels> {
    changes.fold_left(
        known,
        |known: Map<SocketAddr, DstLabels>, change: Change<SocketAddr, LabelRequest<T>>|
            after_change(known, change),
    )
}

/// The reading by address of updates, one after the other.
pub open spec fn all_by_address(
    known: Map<SocketAddr, DstLabels>,
    updates: Seq<Update>,
) -> Map<SocketAddr, DstLabels> {
    updates.fold_left(
        known,
        |known: Map<SocketAddr, DstLabels>, update: Update| by_address(known, update),
    )
}

/// A watch passes on a run of updates: there is one change for each, in order, of the same kind and
/// at the same address, and together they do to the services what the updates say of the endpoints.
pub proof fn law_watch_passes_on_a_run_of_updates<B: Bind>(
    bind: B,
    updates: Seq<Update>,
    changes: Seq<Change<SocketAddr, LabelRequest<B::Service>>>,
    known: Map<SocketAddr, DstLabels>,
)
    requires
        changes.len() == updates.len(),
        forall|k: int|
            0 <= k < updates.len() ==> taken_up(
                bind,
                Ok(Async::Ready(Some(updates[k]))),
                Ok(Async::Ready(#[trigger] changes[k])),
            ),
    ensures
        forall|k: int| 0 <= k < updates.len() ==> tells(#[trigger] changes[k], updates[k]),
        after_changes(known, changes) == all_by_address(known, updates),
    decreases updates.len(),
{
    reveal_with_fuel(Seq::fold_left, 2);
    if updates.len() > 0 {
        let (us, cs) = (updates.drop_last(), changes.drop_last());
        let last = updates.len() - 1;
        assert forall|k: int| 0 <= k < us.len() implies taken_up(
            bind,
            Ok(Async::Ready(Some(us[k]))),
            Ok(Async::Ready(#[trigger] cs[k])),
        ) by {
            assert(cs[k] == changes[k]);
        }
        law_watch_passes_on_a_run_of_updates(bind, us, cs, known);
        law_watch_passes_on_what_it_is_told(
            bind,
            updates[last],
            changes[last],
            after_changes(known, cs),
        );
        assert forall|k: int| 0 <= k < updates.len() implies tells(
            #[trigger] changes[k],
            updates[k],
        ) by {
            if k < last {
                assert(tells(cs[k], us[k]));
            }
        }
    }
}

/// Whether every endpoint that is bound becomes a service.
pub open spec fn never_fails<B: Bind>(bind: B) -> bool {
    forall|addr: &SocketAddr, bound: Result<B::Service, B::BindError>| #[trigger]
        call_ensures(B::bind, (&bind, addr), bound) ==> bound is Ok
}

/// One update per poll, none lost, merged or repeated: where binding never fails, and the channel
/// hands a watch `updates`, one for each poll, and then nothing for now, each poll gives the change
/// of its update, and the poll after them gives nothing for now.
pub proof fn law_each_poll_passes_on_its_update<B: Bind>(
    bind: B,
    updates: Seq<Update>,
    results: Seq<Result<Async<Change<SocketAddr, LabelRequest<B::Service>>>, ()>>,
    then: Result<Async<Change<SocketAddr, LabelRequest<B::Service>>>, ()>,
)
    requires
        never_fails(bind),
        results.len() == updates.len(),
        forall|k: int|
            0 <= k < updates.len() ==> taken_up(
                bind,
                Ok(Async::Ready(Some(updates[k]))),
                #[trigger] results[k],
            ),
        taken_up(bind, Ok(Async::NotReady), then),
    ensures
        forall|k: int|
            0 <= k < updates.len() ==> ((#[trigger] results[k]) matches Ok(Async::Ready(change))
                && tells(change, updates[k])),
        then == Ok::<Async<Change<SocketAddr, LabelRequest<B::Service>>>, ()>(Async::NotReady),
{
}

/// The updates that were handed to a sender.
pub open spec fn heard(tx: UnboundedSender<Update>) -> Seq<Update> {
    posted(tx).map_values(|entry: (Update, bool)| entry.0)
}

/// Whether the channel of a sender took all that was handed to it.
pub open spec fn took_all(tx: UnboundedSender<Update>) -> bool {
    forall|k: int| 0 <= k < posted(tx).len() ==> (#[trigger] posted(tx)[k]).1
}

/// Whether two senders send into the same channel.
pub open spec fn same_channel(a: UnboundedSender<Update>, b: UnboundedSender<Update>) -> bool {
    forall|rx: UnboundedReceiver<Update>| #[trigger] feeds(a, rx) == feeds(b, rx)
}

/// Whether `after` is the sender `before` once the updates have been sent to it, and taken.
pub open spec fn reached(
    before: UnboundedSender<Update>,
    updates: Seq<Update>,
    after: UnboundedSender<Update>,
) -> bool {
    &&& posted(after) == posted(before) + updates.map_values(|update: Update| (update, true))
    &&& same_channel(after, before)
}

/// Whether the watch behind `tx` has been told what amounts to `known`: its channel took all that
/// was sent, and a reading of that from `nothing` gives `known`.
pub open spec fn in_step<M>(
    tx: UnboundedSender<Update>,
    reading: spec_fn(M, Update) -> M,
    nothing: M,
    known: M,
) -> bool {
    took_all(tx) && heard(tx).fold_left(nothing, reading) == known
}

/// Whether every watch has been told what amounts to `known`.
pub open spec fn all_in_step<M>(
    txs: Seq<UnboundedSender<Update>>,
    reading: spec_fn(M, Update) -> M,
    nothing: M,
    known: M,
) -> bool {
    forall|i: int| 0 <= i < txs.len() ==> in_step(#[trigger] txs[i], reading, nothing, known)
}

/// What discovery is for: a watch that has been told what amounts to `known`, and that has passed on
/// each update that was sent to it, has services at exactly the addresses that are known, each with
/// the labels of its endpoint.
pub proof fn law_services_are_what_is_known<B: Bind>(
    bind: B,
    tx: UnboundedSender<Update>,
    changes: Seq<Change<SocketAddr, LabelRequest<B::Service>>>,
    known: Map<SocketAddr, DstLabels>,
)
    requires
        in_step(
            tx,
            |known: Map<SocketAddr, DstLabels>, update: Update| by_address(known, update),
            Map::empty(),
            known,
        ),
        changes.len() == heard(tx).len(),
        forall|k: int|
            0 <= k < changes.len() ==> taken_up(
                bind,
                Ok(Async::Ready(Some(heard(tx)[k]))),
                Ok(Async::Ready(#[trigger] changes[k])),
            ),
    ensures
        after_changes(Map::empty(), changes) == known,
{
    law_watch_passes_on_a_run_of_updates(bind, heard(tx), changes, Map::empty());
}

/// Reading updates one after the other is reading the first ones, then the rest.
proof fn lemma_fold_add<M>(
    reading: spec_fn(M, Update) -> M,
    start: M,
    first: Seq<Update>,
    then: Seq<Update>,
)
    ensures
        (first + then).fold_left(start, reading) == then.fold_left(
            first.fold_left(start, reading),
            reading,
        ),
{
    let all = first + then;
    let n = first.len() as int;
    all.lemma_fold_left_split(start, reading, n);
    assert(all.subrange(0, n) =~= first);
    assert(all.subrange(n, all.len() as int) =~= then);
}

/// A watch that was in step, and that updates reached, is in step with what they lead to.
proof fn lemma_reached_in_step<M>(
    before: UnboundedSender<Update>,
    updates: Seq<Update>,
    after: UnboundedSender<Update>,
    reading: spec_fn(M, Update) -> M,
    nothing: M,
    known: M,
)
    requires
        in_step(before, reading, nothing, known),
        reached(before, updates, after),
    ensures
        in_step(after, reading, nothing, updates.fold_left(known, reading)),
{
    assert(heard(after) =~= heard(before) + updates);
    lemma_fold_add(reading, nothing, heard(before), updates);
    assert forall|k: int| 0 <= k < posted(after).len() implies (#[trigger] posted(after)[k]).1 by {
        if k < posted(before).len() {
            assert(posted(before)[k].1);
        }
    }
}

/// A sender that stays when an update is sent to all is one of those before, and the update
/// reached it.
proof fn lemma_broadcast_one(
    before: Seq<UnboundedSender<Update>>,
    update: Update,
    after: Seq<UnboundedSender<Update>>,
    j: int,
) -> (i: int)
    requires
        broadcast_one(before, update, after),
        0 <= j < after.len(),
    ensures
        0 <= i < before.len(),
        reached(before[i], seq![update], after[j]),
{
    let live = |tx: UnboundedSender<Update>| taken_last(tx);
    let tried = choose|tried: Seq<UnboundedSender<Update>>|
        #[trigger] all_attempted(before, update, tried) && after == tried.filter(live);
    tried.lemma_filter_contains_rev(live, after[j]);
    tried.lemma_filter_pred(live, j);
    let i = choose|i: int| 0 <= i < tried.len() && tried[i] == after[j];
    assert(attempted(before[i], update, tried[i]));
    assert(taken_last(after[j]));
    assert(posted(after[j]) =~= posted(before[i]) + seq![update].map_values(
        |update: Update| (update, true),
    ));
    i
}

/// Only the dead are dropped: when an update is sent to all watches, each sender is asked to send
/// it, and stays exactly if its channel took it.
pub proof fn law_only_the_dead_are_dropped(
    before: Seq<UnboundedSender<Update>>,
    update: Update,
    after: Seq<UnboundedSender<Update>>,
    i: int,
) -> (tx: UnboundedSender<Update>)
    requires
        broadcast_one(before, update, after),
        0 <= i < before.len(),
    ensures
        attempted(before[i], update, tx),
        after.contains(tx) <==> taken_last(tx),
{
    let live = |tx: UnboundedSender<Update>| taken_last(tx);
    let tried = choose|tried: Seq<UnboundedSender<Update>>|
        #[trigger] all_attempted(before, update, tried) && after == tried.filter(live);
    let tx = tried[i];
    if taken_last(tx) {
        tried.lemma_filter_contains(live, i);
    }
    if after.contains(tx) {
        let j = choose|j: int| 0 <= j < after.len() && after[j] == tx;
        tried.lemma_filter_pred(live, j);
    }
    tx
}

/// Whoever stays has heard it all: when updates are sent to all watches, each sender that is left
/// is one of those before, on the same channel, and every update reached it, in order.
pub proof fn law_broadcast_reaches_whoever_stays(
    before: Seq<UnboundedSender<Update>>,
    updates: Seq<Update>,
    after: Seq<UnboundedSender<Update>>,
    j: int,
) -> (i: int)
    requires
        broadcast_all(before, updates, after),
        0 <= j < after.len(),
    ensures
        0 <= i < before.len(),
        reached(before[i], updates, after[j]),
    decreases updates.len(),
{
    let taken = |update: Update| (update, true);
    if updates.len() == 0 {
        assert(posted(after[j]) =~= posted(before[j]) + updates.map_values(taken));
        j
    } else {
        let last = updates.last();
        let mid = choose|mid: Seq<UnboundedSender<Update>>|
            broadcast_all(before, updates.drop_last(), mid) && #[trigger] broadcast_one(
                mid,
                last,
                after,
            );
        let k = lemma_broadcast_one(mid, last, after, j);
        let i = law_broadcast_reaches_whoever_stays(before, updates.drop_last(), mid, k);
        assert(posted(after[j]) =~= posted(before[i]) + updates.map_values(taken));
        i
    }
}

/// Watches stay in step: when all watches have been told what amounts to `known`, then after a
/// broadcast all that are left have been told what the updates make of it.
pub proof fn law_broadcast_keeps_watches_in_step<M>(
    before: Seq<UnboundedSender<Update>>,
    updates: Seq<Update>,
    after: Seq<UnboundedSender<Update>>,
    reading: spec_fn(M, Update) -> M,
    nothing: M,
    known: M,
)
    requires
        broadcast_all(before, updates, after),
        all_in_step(before, reading, nothing, known),
    ensures
        all_in_step(after, reading, nothing, updates.fold_left(known, reading)),
{
    assert forall|j: int| 0 <= j < after.len() implies in_step(
        #[trigger] after[j],
        reading,
        nothing,
        updates.fold_left(known, reading),
    ) by {
        let i = law_broadcast_reaches_whoever_stays(before, updates, after, j);
        lemma_reached_in_step(before[i], updates, after[j], reading, nothing, known);
    }
}

/// Whether the caller's cache reports all that changes in it: with `contents` for what a cache
/// amounts to, the reported changes lead from what the cache held to what it holds; a new cache
/// holds nothing, a cleared one reports until nothing is left, and being told to reset later
/// changes nothing yet.
pub open spec fn reports_faithfully<C, M, F: Fn(CacheOp<C>) -> CacheReply<C>>(
    run: F,
    contents: spec_fn(C) -> M,
    reading: spec_fn(M, Update) -> M,
    nothing: M,
) -> bool {
    forall|op: CacheOp<C>, reply: CacheReply<C>| #[trigger]
        answers(run, op, reply) ==> match op {
            CacheOp::New => contents(reply.cache) == nothing,
            CacheOp::Extend(cache, _) => updates_for(reply.changes@).fold_left(
                contents(cache),
                reading,
            ) == contents(reply.cache),
            CacheOp::Remove(cache, _) => updates_for(reply.changes@).fold_left(
                contents(cache),
                reading,
            ) == contents(reply.cache),
            CacheOp::Clear(cache) => updates_for(reply.changes@).fold_left(
                contents(cache),
                reading,
            ) == nothing,
            CacheOp::SetResetOnNextModification(cache) => contents(reply.cache) == contents(cache),
        }
}

/// Whether the caller lists what a cache holds: as insertions, the values that it lists make up
/// what the cache amounts to.
pub open spec fn lists_faithfully<C, M, V: Fn(&C) -> Vec<Labeled<SocketAddr>>>(
    values: V,
    contents: spec_fn(C) -> M,
    reading: spec_fn(M, Update) -> M,
    nothing: M,
) -> bool {
    forall|cache: C, known: Seq<Labeled<SocketAddr>>| #[trigger]
        holds(values, cache, known) ==> known.map_values(
            |addr: Labeled<SocketAddr>| Update::Insert(addr),
        ).fold_left(nothing, reading) == contents(cache)
}

/// What is known of a name: what its cache amounts to, or nothing where it has none.
pub open spec fn known_of<C, M>(addrs: Exists<C>, contents: spec_fn(C) -> M, nothing: M) -> M {
    match addrs {
        Exists::Yes(cache) => contents(cache),
        _ => nothing,
    }
}

/// Whether every watch of a name has been told what is known of it.
pub open spec fn set_in_step<C, W, S, M>(
    set: SetState<C, W, S>,
    contents: spec_fn(C) -> M,
    reading: spec_fn(M, Update) -> M,
    nothing: M,
) -> bool {
    all_in_step(set.txs, reading, nothing, known_of(set.addrs, contents, nothing))
}

/// An update from the destination service keeps the watches in step: whatever it adds or removes,
/// every watch that is left has been told what is known of the name.
pub proof fn law_update_keeps_watches_in_step<C, W, S, M, F: Fn(CacheOp<C>) -> CacheReply<C>>(
    before: SetState<C, W, S>,
    update: PbUpdate,
    run: F,
    after: SetState<C, W, S>,
    contents: spec_fn(C) -> M,
    reading: spec_fn(M, Update) -> M,
    nothing: M,
)
    requires
        applied(before, update, run, after),
        reports_faithfully(run, contents, reading, nothing),
        set_in_step(before, contents, reading, nothing),
    ensures
        set_in_step(after, contents, reading, nothing),
{
    let known = known_of(before.addrs, contents, nothing);
    match update.update {
        Some(PbUpdate2::Add(set)) => {
            let addrs = choose|addrs: Seq<Labeled<SocketAddr>>| #[trigger]
                labeled_all(set.addrs@, set.metric_labels, addrs) && added(
                    before,
                    addrs,
                    run,
                    after,
                );
            let (cache, list, reply) = choose|
                cache: C,
                list: Vec<Labeled<SocketAddr>>,
                reply: CacheReply<C>,
            |
                {
                    &&& #[trigger] answers(run, CacheOp::Extend(cache, list), reply)
                    &&& list@ == addrs
                    &&& match before.addrs {
                        Exists::Yes(known) => cache == known,
                        _ => is_new(run, cache),
                    }
                    &&& after.addrs == Exists::Yes(reply.cache)
                    &&& broadcast_all(before.txs, updates_for(reply.changes@), after.txs)
                };
            assert(contents(cache) == known);
            law_broadcast_keeps_watches_in_step(
                before.txs,
                updates_for(reply.changes@),
                after.txs,
                reading,
                nothing,
                known,
            );
        },
        Some(PbUpdate2::Remove(set)) => {
            if let Exists::Yes(cache) = before.addrs {
                let (list, reply) = choose|list: Vec<SocketAddr>, reply: CacheReply<C>|
                    {
                        &&& #[trigger] answers(run, CacheOp::Remove(cache, list), reply)
                        &&& list@.map_values(|addr: SocketAddr| addr@) == sock_addrs(set.addrs@)
                        &&& after.addrs == Exists::Yes(reply.cache)
                        &&& broadcast_all(before.txs, updates_for(reply.changes@), after.txs)
                    };
                law_broadcast_keeps_watches_in_step(
                    before.txs,
                    updates_for(reply.changes@),
                    after.txs,
                    reading,
                    nothing,
                    known,
                );
            }
        },
        Some(PbUpdate2::NoEndpoints(none)) => {
            if let Exists::Yes(cache) = before.addrs {
                let reply = choose|reply: CacheReply<C>|
                    {
                        &&& #[trigger] answers(run, CacheOp::Clear(cache), reply)
                        &&& broadcast_all(before.txs, updates_for(reply.changes@), after.txs)
                    };
                law_broadcast_keeps_watches_in_step(
                    before.txs,
                    updates_for(reply.changes@),
                    after.txs,
                    reading,
                    nothing,
                    known,
                );
            }
        },
        None => {},
    }
}

/// Whether there is nothing to report when a new cache is cleared.
pub open spec fn new_cache_clears_silently<C, F: Fn(CacheOp<C>) -> CacheReply<C>>(run: F) -> bool {
    forall|cache: C, reply: CacheReply<C>|
        is_new(run, cache) && #[trigger] answers(run, CacheOp::Clear(cache), reply)
            ==> reply.changes@.len() == 0
}

/// Emptying twice is emptying once: a name that was just found to have no endpoints can be found so
/// again, and no watch is told anything or dropped. Where the first finding was that the name exists,
/// this rests on the caller's cache: a new one has nothing to report when it is cleared.
/// What is known is what the second finding alone would have left; where both agree on whether the
/// name exists, the second leaves behind what the first did.
pub proof fn law_emptying_twice_is_emptying_once<C, W, S, F: Fn(CacheOp<C>) -> CacheReply<C>>(
    before: SetState<C, W, S>,
    first: bool,
    run: F,
    mid: SetState<C, W, S>,
    second: bool,
    after: SetState<C, W, S>,
)
    requires
        emptied(before, first, run, mid),
        emptied(mid, second, run, after),
        first ==> new_cache_clears_silently(run),
    ensures
        after.txs == mid.txs,
        after.query == mid.query,
        emptied(before, second, run, after),
        first == second ==> emptied(before, first, run, after) && match mid.addrs {
            Exists::Yes(cache) => is_new(run, cache) && after.addrs is Yes && is_new(
                run,
                after.addrs->Yes_0,
            ),
            _ => after == mid,
        },
{
    if let Exists::Yes(cache) = mid.addrs {
        let reply = choose|reply: CacheReply<C>|
            {
                &&& #[trigger] answers(run, CacheOp::Clear(cache), reply)
                &&& broadcast_all(mid.txs, updates_for(reply.changes@), after.txs)
            };
        assert(updates_for(reply.changes@).len() == 0);
    }
}

/// A new watch catches up: once it has joined, it has been told what is known of the name, and no
/// other watch is disturbed.
pub proof fn law_new_watch_catches_up<C, W, S, M, V: Fn(&C) -> Vec<Labeled<SocketAddr>>>(
    before: SetState<C, W, S>,
    tx: UnboundedSender<Update>,
    values: V,
    after: SetState<C, W, S>,
    contents: spec_fn(C) -> M,
    reading: spec_fn(M, Update) -> M,
    nothing: M,
)
    requires
        joined(before, tx, values, after),
        posted(tx).len() == 0,
        lists_faithfully(values, contents, reading, nothing),
        set_in_step(before, contents, reading, nothing),
    ensures
        set_in_step(after, contents, reading, nothing),
        after.txs.drop_last() == before.txs,
        same_channel(after.txs.last(), tx),
{
    assert(heard(tx) =~= Seq::empty());
    assert(in_step(tx, reading, nothing, nothing));
    assert(after.txs.drop_last() =~= before.txs);
    if let Exists::Yes(cache) = before.addrs {
        let (known, joining) = choose|
            known: Seq<Labeled<SocketAddr>>,
            joining: UnboundedSender<Update>,
        |
            {
                &&& #[trigger] holds(values, cache, known)
                &&& #[trigger] greeted(tx, known, joining)
                &&& after.txs == before.txs.push(joining)
            };
        let updates = known.map_values(|addr: Labeled<SocketAddr>| Update::Insert(addr));
        assert(posted(joining) =~= posted(tx) + updates.map_values(
            |update: Update| (update, true),
        ));
        lemma_reached_in_step(tx, updates, joining, reading, nothing, nothing);
        assert(in_step(joining, reading, nothing, contents(cache)));
    }
    assert forall|i: int| 0 <= i < after.txs.len() implies in_step(
        #[trigger] after.txs[i],
        reading,
        nothing,
        known_of(after.addrs, contents, nothing),
    ) by {
        if i < before.txs.len() {
            assert(in_step(
                before.txs[i],
                reading,
                nothing,
                known_of(before.addrs, contents, nothing),
            ));
        }
    }
}

/// Whether every watch of every name has been told what is known of the name; a watch whose name
/// is only being queried has been told nothing.
pub open spec fn work_in_step<C, W, S, M>(
    s: WorkState<C, W, S>,
    contents: spec_fn(C) -> M,
    reading: spec_fn(M, Update) -> M,
    nothing: M,
) -> bool {
    &&& forall|i: int|
        0 <= i < s.destinations.len() ==> set_in_step(
            (#[trigger] s.destinations[i]).1,
            contents,
            reading,
            nothing,
        )
    &&& s.phase matches PhaseState::Connecting(_, tx) ==> posted(tx).len() == 0
}

/// Work that has not begun is in step: there is no watch yet.
pub proof fn law_work_begins_in_step<C, W, S, M>(
    s: WorkState<C, W, S>,
    contents: spec_fn(C) -> M,
    reading: spec_fn(M, Update) -> M,
    nothing: M,
)
    requires
        s.destinations.len() == 0,
        s.phase is Idle,
    ensures
        work_in_step(s, contents, reading, nothing),
{
}

/// Polling on tells no watch anything.
proof fn lemma_poll_from_in_step<C, W, S, M>(
    s: WorkState<C, W, S>,
    from: int,
    contents: spec_fn(C) -> M,
    reading: spec_fn(M, Update) -> M,
    nothing: M,
)
    requires
        0 <= from,
        forall|i: int|
            0 <= i < s.destinations.len() ==> set_in_step(
                (#[trigger] s.destinations[i]).1,
                contents,
                reading,
                nothing,
            ),
    ensures
        work_in_step(s.poll_from(from).0, contents, reading, nothing),
{
    let t = s.poll_from(from).0;
    lemma_next_connected(s, from);
    assert forall|i: int| 0 <= i < t.destinations.len() implies set_in_step(
        (#[trigger] t.destinations[i]).1,
        contents,
        reading,
        nothing,
    ) by {
        assert(set_in_step(s.destinations[i].1, contents, reading, nothing));
    }
}

/// What the work is for: whatever happens, every watch that the work still serves has been told
/// what is known of its name. A watch that asks to join is one that nothing has been sent to yet.
pub proof fn law_step_keeps_watches_in_step<
    C,
    W,
    S,
    M,
    F: Fn(CacheOp<C>) -> CacheReply<C>,
    V: Fn(&C) -> Vec<Labeled<SocketAddr>>,
    N: Fn(&DnsNameAndPort, &str) -> Option<String>,
>(
    s: WorkState<C, W, S>,
    event: Event<W, S>,
    run: F,
    values: V,
    normalize: N,
    t: WorkState<C, W, S>,
    r: Result<ActionState<W, S>, WatchGone>,
    contents: spec_fn(C) -> M,
    reading: spec_fn(M, Update) -> M,
    nothing: M,
)
    requires
        s.well_formed(),
        s.expects(event),
        s.step(event, run, values, normalize, t, r),
        event matches Event::Watch(WatchPoll::Request(_, tx)) ==> posted(tx).len() == 0,
        reports_faithfully(run, contents, reading, nothing),
        lists_faithfully(values, contents, reading, nothing),
        work_in_step(s, contents, reading, nothing),
    ensures
        work_in_step(t, contents, reading, nothing),
{
    assert(forall|i: int|
        0 <= i < s.destinations.len() ==> set_in_step(
            (#[trigger] s.destinations[i]).1,
            contents,
            reading,
            nothing,
        ));
    match event {
        Event::Start => {},
        Event::Ready(readiness) => {
            if readiness != Readiness::Ready {
                lemma_poll_from_in_step(
                    WorkState { rpc_ready: false, ..s },
                    0,
                    contents,
                    reading,
                    nothing,
                );
            }
        },
        Event::Watch(WatchPoll::Request(authority, tx)) => {
            if s.knows(authority@) {
                let (i, set) = choose|i: int, set: SetState<C, W, S>|
                    {
                        &&& #[trigger] s.is_at(authority@, i)
                        &&& t == (#[trigger] s.with_set(i, set)).await_phase(
                            PhaseState::AwaitReady,
                        )
                        &&& match r {
                            Ok(action) => {
                                &&& action == ActionState::<W, S>::PollReady
                                &&& joined(s.destinations[i].1, tx, values, set)
                            },
                            Err(_) => {
                                &&& gone(s.destinations[i].1, tx, values)
                                &&& set == s.destinations[i].1
                            },
                        }
                    };
                if r is Ok {
                    law_new_watch_catches_up(
                        s.destinations[i].1,
                        tx,
                        values,
                        set,
                        contents,
                        reading,
                        nothing,
                    );
                }
            } else {
                assert(heard(tx) =~= Seq::empty());
                assert(in_step(tx, reading, nothing, nothing));
            }
        },
        Event::Watch(_) => {
            lemma_poll_from_in_step(s, 0, contents, reading, nothing);
        },
        Event::Response(_) => {
            if let PhaseState::Connecting(_, tx) = s.phase {
                assert(heard(tx) =~= Seq::empty());
                assert(in_step(tx, reading, nothing, nothing));
            }
        },
        Event::Polled(polled) => {
            let i = s.phase->Polling_0;
            match rx_poll(polled) {
                RxPoll::Again(_) => {},
                RxPoll::Ready(_, update) => {
                    let set = choose|set: SetState<C, W, S>|
                        {
                            &&& #[trigger] applied(s.destinations[i].1, update, run, set)
                            &&& t == s.with_set(i, set)
                        };
                    law_update_keeps_watches_in_step(
                        s.destinations[i].1,
                        update,
                        run,
                        set,
                        contents,
                        reading,
                        nothing,
                    );
                },
                _ => {
                    let u = lemma_polls_on(s, polled, run, t, r->Ok_0);
                    assert forall|j: int| 0 <= j < u.destinations.len() implies set_in_step(
                        (#[trigger] u.destinations[j]).1,
                        contents,
                        reading,
                        nothing,
                    ) by {
                        assert(set_in_step(s.destinations[j].1, contents, reading, nothing));
                    }
                    lemma_poll_from_in_step(u, i + 1, contents, reading, nothing);
                },
            }
        },
    }
}

/// Polling on ends the round only where nothing is left to reconnect, or the destination service
/// is not ready; whatever it asks for is what it then waits for. Names and watches stay.
proof fn lemma_poll_from_ends<C, W, S>(s: WorkState<C, W, S>, from: int)
    requires
        0 <= from,
    ensures
        ({
            let (t, action) = s.poll_from(from);
            &&& waits_for(t, action)
            &&& action is Done ==> t.reconnects.len() == 0 || !t.rpc_ready
            &&& t.destinations.len() == s.destinations.len()
            &&& forall|i: int|
                0 <= i < s.destinations.len() ==> {
                    &&& (#[trigger] t.destinations[i]).0 == s.destinations[i].0
                    &&& t.destinations[i].1.txs == s.destinations[i].1.txs
                }
        }),
{
    lemma_next_connected(s, from);
}

/// Whether the work waits for what comes of `action`.
pub open spec fn waits_for<C, W, S>(s: WorkState<C, W, S>, action: ActionState<W, S>) -> bool {
    match action {
        ActionState::PollReady => s.phase is AwaitReady,
        ActionState::PollWatches => s.phase is AwaitWatch,
        ActionState::Get(_) => s.phase is Reconnecting || s.phase is Connecting,
        ActionState::Poll(_) => s.phase is Polling,
        ActionState::Done => s.phase is Idle,
    }
}

/// A query that has nothing for now, ended or failed leads on to the names that follow: before they
/// are polled, only its own name has changed. Who watches that name has not, and what is known of it
/// has at most been marked to be replaced.
proof fn lemma_polls_on<C, W, S, F: Fn(CacheOp<C>) -> CacheReply<C>>(
    s: WorkState<C, W, S>,
    polled: RxEvent<W, S>,
    run: F,
    t: WorkState<C, W, S>,
    action: ActionState<W, S>,
) -> (u: WorkState<C, W, S>)
    requires
        s.well_formed(),
        s.phase is Polling,
        s.polled_step(polled, run, t, action),
        !(rx_poll(polled) is Again || rx_poll(polled) is Ready),
    ensures
        (t, action) == u.poll_from(s.phase->Polling_0 + 1),
        u.namespace == s.namespace,
        u.rx == s.rx,
        u.destinations.len() == s.destinations.len(),
        forall|j: int|
            0 <= j < s.destinations.len() ==> {
                &&& (#[trigger] u.destinations[j]).0 == s.destinations[j].0
                &&& u.destinations[j].1.txs == s.destinations[j].1.txs
                &&& j != s.phase->Polling_0 ==> u.destinations[j] == s.destinations[j]
            },
        ({
            let (from, to) = (
                s.destinations[s.phase->Polling_0].1,
                u.destinations[s.phase->Polling_0].1,
            );
            to.addrs == from.addrs || marked(from, run, SetState { query: from.query, ..to })
        }),
{
    let i = s.phase->Polling_0;
    if let RxPoll::NotReady(rx) = rx_poll(polled) {
        s.with_query(i, Some(DestinationServiceQuery::ConnectedOrConnecting { rx }))
    } else {
        let set = choose|set: SetState<C, W, S>|
            {
                &&& #[trigger] marked(s.destinations[i].1, run, set)
                &&& (t, action) == s.requeue(i, set).poll_from(i + 1)
            };
        s.requeue(i, set)
    }
}

/// What every step has in common: the work waits for what comes of the action that it asked for;
/// it is done only where nothing is left to reconnect, or the destination service is not ready;
/// names stay; only a request to watch, or its response, can add one; and only a request to watch,
/// or an update, can change who watches a name.
proof fn lemma_step<
    C,
    W,
    S,
    F: Fn(CacheOp<C>) -> CacheReply<C>,
    V: Fn(&C) -> Vec<Labeled<SocketAddr>>,
    N: Fn(&DnsNameAndPort, &str) -> Option<String>,
>(
    s: WorkState<C, W, S>,
    event: Event<W, S>,
    run: F,
    values: V,
    normalize: N,
    t: WorkState<C, W, S>,
    r: Result<ActionState<W, S>, WatchGone>,
)
    requires
        s.well_formed(),
        s.expects(event),
        s.step(event, run, values, normalize, t, r),
    ensures
        match r {
            Ok(action) => {
                &&& waits_for(t, action)
                &&& action is Done ==> t.reconnects.len() == 0 || !t.rpc_ready
            },
            Err(_) => t.phase is AwaitReady,
        },
        s.destinations.len() <= t.destinations.len() <= s.destinations.len() + 1,
        t.destinations.len() > s.destinations.len() ==> event is Response || event matches
            Event::Watch(WatchPoll::Request(_, _)),
        t.namespace == s.namespace,
        t.rx == s.rx,
        forall|i: int|
            0 <= i < s.destinations.len() ==> {
                &&& (#[trigger] t.destinations[i]).0 == s.destinations[i].0
                &&& t.destinations[i].1.txs == s.destinations[i].1.txs || match event {
                    Event::Watch(WatchPoll::Request(_, _)) => true,
                    Event::Polled(polled) => rx_poll(polled) is Ready && i == s.phase->Polling_0,
                    _ => false,
                }
            },
{
    match event {
        Event::Ready(_) => {
            lemma_poll_from_ends(WorkState { rpc_ready: false, ..s }, 0);
        },
        Event::Watch(_) => {
            lemma_poll_from_ends(s, 0);
        },
        Event::Polled(polled) => {
            if !(rx_poll(polled) is Again || rx_poll(polled) is Ready) {
                let u = lemma_polls_on(s, polled, run, t, r->Ok_0);
                lemma_poll_from_ends(u, s.phase->Polling_0 + 1);
            }
        },
        _ => {},
    }
}

/// Each action is followed by its event: after a step the work waits for what comes of the action
/// that the step asked for. After a watch that was gone it waits for whether the destination
/// service is ready.
pub proof fn law_action_is_waited_for<
    C,
    W,
    S,
    F: Fn(CacheOp<C>) -> CacheReply<C>,
    V: Fn(&C) -> Vec<Labeled<SocketAddr>>,
    N: Fn(&DnsNameAndPort, &str) -> Option<String>,
>(
    s: WorkState<C, W, S>,
    event: Event<W, S>,
    run: F,
    values: V,
    normalize: N,
    t: WorkState<C, W, S>,
    r: Result<ActionState<W, S>, WatchGone>,
)
    requires
        s.well_formed(),
        s.expects(event),
        s.step(event, run, values, normalize, t, r),
    ensures
        match r {
            Ok(action) => waits_for(t, action),
            Err(_) => t.phase is AwaitReady,
        },
{
    lemma_step(s, event, run, values, normalize, t, r);
}

/// The work does not sleep on a lost stream: when it is done while the destination service is
/// ready, no query must be reconnected.
pub proof fn law_done_only_when_nothing_is_to_be_reconnected<
    C,
    W,
    S,
    F: Fn(CacheOp<C>) -> CacheReply<C>,
    V: Fn(&C) -> Vec<Labeled<SocketAddr>>,
    N: Fn(&DnsNameAndPort, &str) -> Option<String>,
>(
    s: WorkState<C, W, S>,
    event: Event<W, S>,
    run: F,
    values: V,
    normalize: N,
    t: WorkState<C, W, S>,
    r: Result<ActionState<W, S>, WatchGone>,
)
    requires
        s.well_formed(),
        s.expects(event),
        s.step(event, run, values, normalize, t, r),
        r == Ok::<ActionState<W, S>, WatchGone>(ActionState::Done),
        t.rpc_ready,
    ensures
        t.reconnects.len() == 0,
        forall|i: int|
            0 <= i < t.destinations.len() ==> !needs_reconnect((#[trigger] t.destinations[i]).1),
{
    law_step_keeps_well_formed(s, event, run, values, normalize, t, r);
    lemma_step(s, event, run, values, normalize, t, r);
}

/// Reconnects come first: a request to watch a name is polled for only when the destination
/// service is ready and no query waits to be reconnected.
pub proof fn law_reconnects_come_first<
    C,
    W,
    S,
    F: Fn(CacheOp<C>) -> CacheReply<C>,
    V: Fn(&C) -> Vec<Labeled<SocketAddr>>,
    N: Fn(&DnsNameAndPort, &str) -> Option<String>,
>(
    s: WorkState<C, W, S>,
    event: Event<W, S>,
    run: F,
    values: V,
    normalize: N,
    t: WorkState<C, W, S>,
    r: Result<ActionState<W, S>, WatchGone>,
)
    requires
        s.well_formed(),
        s.expects(event),
        s.step(event, run, values, normalize, t, r),
        r == Ok::<ActionState<W, S>, WatchGone>(ActionState::PollWatches),
    ensures
        t.rpc_ready,
        forall|i: int|
            0 <= i < t.destinations.len() ==> !needs_reconnect((#[trigger] t.destinations[i]).1),
{
    law_step_keeps_well_formed(s, event, run, values, normalize, t, r);
    lemma_step(s, event, run, values, normalize, t, r);
}

/// Names stay: a name that is watched keeps its place, and at most one name is added, at the end.
pub proof fn law_names_stay<
    C,
    W,
    S,
    F: Fn(CacheOp<C>) -> CacheReply<C>,
    V: Fn(&C) -> Vec<Labeled<SocketAddr>>,
    N: Fn(&DnsNameAndPort, &str) -> Option<String>,
>(
    s: WorkState<C, W, S>,
    event: Event<W, S>,
    run: F,
    values: V,
    normalize: N,
    t: WorkState<C, W, S>,
    r: Result<ActionState<W, S>, WatchGone>,
)
    requires
        s.well_formed(),
        s.expects(event),
        s.step(event, run, values, normalize, t, r),
    ensures
        s.destinations.len() <= t.destinations.len() <= s.destinations.len() + 1,
        forall|i: int|
            0 <= i < s.destinations.len() ==> (#[trigger] t.destinations[i]).0
                == s.destinations[i].0,
        t.namespace == s.namespace,
        t.rx == s.rx,
{
    lemma_step(s, event, run, values, normalize, t, r);
}

/// Whether `tx` sends into the channel of one of the senders `before`.
pub open spec fn came_from(
    before: Seq<UnboundedSender<Update>>,
    tx: UnboundedSender<Update>,
) -> bool {
    exists|i: int| 0 <= i < before.len() && same_channel(tx, #[trigger] before[i])
}

/// A broadcast adds no watch.
proof fn lemma_broadcast_adds_no_watch(
    before: Seq<UnboundedSender<Update>>,
    updates: Seq<Update>,
    after: Seq<UnboundedSender<Update>>,
    j: int,
)
    requires
        broadcast_all(before, updates, after),
        0 <= j < after.len(),
    ensures
        came_from(before, after[j]),
{
    let i = law_broadcast_reaches_whoever_stays(before, updates, after, j);
    assert(same_channel(after[j], before[i]));
}

/// An update from the destination service adds no watch.
proof fn lemma_update_adds_no_watch<C, W, S, F: Fn(CacheOp<C>) -> CacheReply<C>>(
    before: SetState<C, W, S>,
    update: PbUpdate,
    run: F,
    after: SetState<C, W, S>,
    j: int,
)
    requires
        applied(before, update, run, after),
        0 <= j < after.txs.len(),
    ensures
        came_from(before.txs, after.txs[j]),
{
    let tx = after.txs[j];
    if after.txs == before.txs {
        assert(same_channel(tx, before.txs[j]));
    } else {
        let updates = choose|updates: Seq<Update>| broadcast_all(before.txs, updates, after.txs);
        lemma_broadcast_adds_no_watch(before.txs, updates, after.txs, j);
    }
}

/// A watch hears of its own name only: whatever the work serves under a name after a step, it
/// served under that name before, on the same channel, or it is the watch that asked for the name.
pub proof fn law_watch_hears_of_its_own_name<
    C,
    W,
    S,
    F: Fn(CacheOp<C>) -> CacheReply<C>,
    V: Fn(&C) -> Vec<Labeled<SocketAddr>>,
    N: Fn(&DnsNameAndPort, &str) -> Option<String>,
>(
    s: WorkState<C, W, S>,
    event: Event<W, S>,
    run: F,
    values: V,
    normalize: N,
    t: WorkState<C, W, S>,
    r: Result<ActionState<W, S>, WatchGone>,
    i: int,
    j: int,
)
    requires
        s.well_formed(),
        s.expects(event),
        s.step(event, run, values, normalize, t, r),
        0 <= i < t.destinations.len(),
        0 <= j < t.destinations[i].1.txs.len(),
    ensures
        ({
            let name = t.destinations[i].0;
            let tx = t.destinations[i].1.txs[j];
            ||| s.is_at(name, i) && came_from(s.destinations[i].1.txs, tx)
            ||| event matches Event::Watch(WatchPoll::Request(asked, new)) && asked@ == name
                && same_channel(tx, new)
            ||| s.phase matches PhaseState::Connecting(asked, new) && asked == name
                && same_channel(tx, new)
        }),
{
    lemma_step(s, event, run, values, normalize, t, r);
    let tx = t.destinations[i].1.txs[j];
    if i < s.destinations.len() {
        let earlier = s.destinations[i].1.txs;
        if t.destinations[i].1.txs == earlier {
            assert(same_channel(tx, earlier[j]));
        } else if let Event::Polled(polled) = event {
            lemma_update_adds_no_watch(
                s.destinations[i].1,
                rx_poll(polled)->Ready_1,
                run,
                t.destinations[i].1,
                j,
            );
        } else {
            assert(t.destinations[i].1.txs.drop_last() =~= earlier);
            if j < earlier.len() {
                assert(same_channel(tx, earlier[j]));
            }
        }
    }
}

/// A name that cannot be queried never is: where a name has no query, and none is being polled
/// for it, a step gives it none, and asks for nothing on its behalf.
pub proof fn law_unqueried_name_stays_unqueried<
    C,
    W,
    S,
    F: Fn(CacheOp<C>) -> CacheReply<C>,
    V: Fn(&C) -> Vec<Labeled<SocketAddr>>,
    N: Fn(&DnsNameAndPort, &str) -> Option<String>,
>(
    s: WorkState<C, W, S>,
    event: Event<W, S>,
    run: F,
    values: V,
    normalize: N,
    t: WorkState<C, W, S>,
    r: Result<ActionState<W, S>, WatchGone>,
    i: int,
)
    requires
        s.well_formed(),
        s.expects(event),
        s.step(event, run, values, normalize, t, r),
        0 <= i < s.destinations.len(),
        s.destinations[i].1.query is None,
        s.phase != PhaseState::Polling(i),
    ensures
        t.destinations[i].1.query is None,
        t.phase != PhaseState::Polling(i),
        t.phase != PhaseState::Reconnecting(i),
{
    law_step_keeps_well_formed(s, event, run, values, normalize, t, r);
    match event {
        Event::Ready(_) => {
            lemma_next_connected(WorkState { rpc_ready: false, ..s }, 0);
        },
        Event::Watch(_) => {
            lemma_next_connected(s, 0);
        },
        Event::Polled(polled) => {
            if !(rx_poll(polled) is Again || rx_poll(polled) is Ready) {
                let u = lemma_polls_on(s, polled, run, t, r->Ok_0);
                lemma_next_connected(u, s.phase->Polling_0 + 1);
            }
        },
        _ => {},
    }
}

} // verus!
