//! What is known of one name, and who watches it.
use crate::addr::{pb_to_sock_addr, sock_addr, SocketAddr, TcpAddress};
use crate::cache::{
    answers, is_new, runs, update_for, updates_for, CacheChange, CacheOp, CacheReply, Exists,
};
use crate::channel::{attempted, feeds, posted, send_update, taken_last};
use crate::labels::{has_sock_addr, labeled_from, Labeled, Update};
use crate::pb::{AddrSet, PbUpdate, PbUpdate2, WeightedAddr, WeightedAddrSet};
use crate::query::{DestinationServiceQuery, RxPoll, UpdateRx};
use futures::sync::mpsc::{UnboundedReceiver, UnboundedSender};
use std::collections::HashMap;
use std::sync::Arc;
use vstd::prelude::*;

verus! {

/// What is known of a name, the query that is open for it, and the channels to its watches.
#[derive(Debug)]
pub struct DestinationSet<C, W, S> {
    pub addrs: Exists<C>,
    pub query: Option<DestinationServiceQuery<W, S>>,
    pub txs: Vec<UnboundedSender<Update>>,
}

/// A `DestinationSet` as contracts speak of it.
pub struct SetState<C, W, S> {
    pub addrs: Exists<C>,
    pub query: Option<DestinationServiceQuery<W, S>>,
    pub txs: Seq<UnboundedSender<Update>>,
}

impl<C, W, S> View for DestinationSet<C, W, S> {
    type V = SetState<C, W, S>;

    open spec fn view(&self) -> SetState<C, W, S> {
        SetState { addrs: self.addrs, query: self.query, txs: self.txs@ }
    }
}

/// What is to be done after one poll of the stream of updates.
#[derive(Debug)]
pub enum SetPoll<W, S> {
    /// Poll this again at once.
    Poll(UpdateRx<W, S>),
    /// Leave the stream for now; this is the query.
    Return(DestinationServiceQuery<W, S>),
}

/// A watch was dropped before it could join.
#[derive(Clone, Copy, Debug, PartialEq, Eq)]
pub struct WatchGone {}

/// Whether `tried` are the senders `before`, each asked once to send `update`.
pub open spec fn all_attempted(
    before: Seq<UnboundedSender<Update>>,
    update: Update,
    tried: Seq<UnboundedSender<Update>>,
) -> bool {
    &&& tried.len() == before.len()
    &&& forall|i: int| 0 <= i < before.len() ==> attempted(before[i], update, #[trigger] tried[i])
}

/// Whether `after` is what is left of the senders `before` once each has been asked to send
/// `update`: those whose channel took it, in their order.
pub open spec fn broadcast_one(
    before: Seq<UnboundedSender<Update>>,
    update: Update,
    after: Seq<UnboundedSender<Update>>,
) -> bool {
    exists|tried: Seq<UnboundedSender<Update>>|
        #[trigger] all_attempted(before, update, tried) && after == tried.filter(
            |tx: UnboundedSender<Update>| taken_last(tx),
        )
}

/// Whether `after` is what is left of the senders `before` once the updates have been sent to
/// them, one after the other.
pub open spec fn broadcast_all(
    before: Seq<UnboundedSender<Update>>,
    updates: Seq<Update>,
    after: Seq<UnboundedSender<Update>>,
) -> bool
    decreases updates.len(),
{
    if updates.len() == 0 {
        after == before
    } else {
        exists|mid: Seq<UnboundedSender<Update>>|
            broadcast_all(before, updates.drop_last(), mid) && #[trigger] broadcast_one(
                mid,
                updates.last(),
                after,
            )
    }
}

/// The state after endpoints were added: the cache, a new one where the name was not known to
/// exist, has been extended by them, and the watches were told of each change.
pub open spec fn added<C, W, S, F: Fn(CacheOp<C>) -> CacheReply<C>>(
    before: SetState<C, W, S>,
    addrs: Seq<Labeled<SocketAddr>>,
    run: F,
    after: SetState<C, W, S>,
) -> bool {
    &&& after.query == before.query
    &&& exists|cache: C, list: Vec<Labeled<SocketAddr>>, reply: CacheReply<C>|
        {
            &&& #[trigger] answers(run, CacheOp::Extend(cache, list), reply)
            &&& list@ == addrs
            &&& match before.addrs {
                Exists::Yes(known) => cache == known,
                _ => is_new(run, cache),
            }
            &&& after.addrs == Exists::Yes(reply.cache)
            &&& broadcast_all(before.txs, updates_for(reply.changes@), after.txs)
        }
}

/// The state after endpoints were removed: the cache has given them up, and the watches were told
/// of each change. Where the name was not known to exist, it is now, and a new cache holds
/// nothing.
pub open spec fn removed<C, W, S, F: Fn(CacheOp<C>) -> CacheReply<C>>(
    before: SetState<C, W, S>,
    addrs: Seq<(Seq<u8>, u16)>,
    run: F,
    after: SetState<C, W, S>,
) -> bool {
    &&& after.query == before.query
    &&& match before.addrs {
        Exists::Yes(cache) => exists|list: Vec<SocketAddr>, reply: CacheReply<C>|
            {
                &&& #[trigger] answers(run, CacheOp::Remove(cache, list), reply)
                &&& list@.map_values(|addr: SocketAddr| addr@) == addrs
                &&& after.addrs == Exists::Yes(reply.cache)
                &&& broadcast_all(before.txs, updates_for(reply.changes@), after.txs)
            },
        _ => after.txs == before.txs && after.addrs is Yes && is_new(run, after.addrs->Yes_0),
    }
}

/// The state after the name was found to have no endpoints: the cache has been cleared, the
/// watches were told of each change, and a new cache takes its place where the name exists.
pub open spec fn emptied<C, W, S, F: Fn(CacheOp<C>) -> CacheReply<C>>(
    before: SetState<C, W, S>,
    name_exists: bool,
    run: F,
    after: SetState<C, W, S>,
) -> bool {
    &&& after.query == before.query
    &&& match before.addrs {
        Exists::Yes(cache) => exists|reply: CacheReply<C>|
            {
                &&& #[trigger] answers(run, CacheOp::Clear(cache), reply)
                &&& broadcast_all(before.txs, updates_for(reply.changes@), after.txs)
            },
        _ => after.txs == before.txs,
    }
    &&& if name_exists {
        after.addrs is Yes && is_new(run, after.addrs->Yes_0)
    } else {
        after.addrs == Exists::<C>::No
    }
}

/// The state after the cache, where there is one, was told to let the next modification replace
/// what it holds.
pub open spec fn marked<C, W, S, F: Fn(CacheOp<C>) -> CacheReply<C>>(
    before: SetState<C, W, S>,
    run: F,
    after: SetState<C, W, S>,
) -> bool {
    &&& after.query == before.query
    &&& after.txs == before.txs
    &&& match before.addrs {
        Exists::Yes(cache) => exists|reply: CacheReply<C>|
            {
                &&& #[trigger] answers(run, CacheOp::SetResetOnNextModification(cache), reply)
                &&& after.addrs == Exists::Yes(reply.cache)
            },
        _ => after.addrs == before.addrs,
    }
}

/// Whether `labeled` are the endpoints of a message, in their order, without those that name no
/// address.
pub open spec fn labeled_all(
    addrs: Seq<WeightedAddr>,
    set_labels: HashMap<String, String>,
    labeled: Seq<Labeled<SocketAddr>>,
) -> bool {
    let usable = addrs.filter(|addr: WeightedAddr| has_sock_addr(addr));
    &&& labeled.len() == usable.len()
    &&& forall|i: int|
        0 <= i < usable.len() ==> labeled_from(usable[i], set_labels, #[trigger] labeled[i])
}

/// The socket addresses of a message, in their order, without those that name no address.
pub open spec fn sock_addrs(addrs: Seq<TcpAddress>) -> Seq<(Seq<u8>, u16)> {
    addrs.filter(|addr: TcpAddress| sock_addr(addr) is Some).map_values(
        |addr: TcpAddress| sock_addr(addr)->0,
    )
}

/// The state after an update from the destination service.
pub open spec fn applied<C, W, S, F: Fn(CacheOp<C>) -> CacheReply<C>>(
    before: SetState<C, W, S>,
    update: PbUpdate,
    run: F,
    after: SetState<C, W, S>,
) -> bool {
    match update.update {
        Some(PbUpdate2::Add(set)) => exists|addrs: Seq<Labeled<SocketAddr>>| #[trigger]
            labeled_all(set.addrs@, set.metric_labels, addrs) && added(before, addrs, run, after),
        Some(PbUpdate2::Remove(set)) => removed(before, sock_addrs(set.addrs@), run, after),
        Some(PbUpdate2::NoEndpoints(none)) => emptied(before, none.exists, run, after),
        None => after == before,
    }
}

/// The endpoints of a message, under their labels.
pub fn labeled_addrs(set: WeightedAddrSet) -> (r: Vec<Labeled<SocketAddr>>)
    ensures
        labeled_all(set.addrs@, set.metric_labels, r@),
{
    let ghost addrs = set.addrs@;
    let ghost set_labels = set.metric_labels;
    let ghost usable = |addr: WeightedAddr| has_sock_addr(addr);
    let labels = Arc::new(set.metric_labels);
    let mut r: Vec<Labeled<SocketAddr>> = Vec::new();
    proof {
        reveal(Seq::filter);
        assert(addrs.take(0).filter(usable) =~= Seq::empty());
    }
    for addr in iter: set.addrs
        invariant
            iter.seq() == addrs,
            *labels == set_labels,
            usable == (|addr: WeightedAddr| has_sock_addr(addr)),
            r@.len() == addrs.take(iter.index() as int).filter(usable).len(),
            forall|i: int|
                0 <= i < r@.len() ==> labeled_from(
                    addrs.take(iter.index() as int).filter(usable)[i],
                    set_labels,
                    #[trigger] r@[i],
                ),
    {
        proof {
            reveal(Seq::filter);
            let n = iter.index() as int;
            assert(addrs.take(n + 1).drop_last() =~= addrs.take(n));
            assert(addrs.take(n + 1).last() == addr);
        }
        if let Some(labeled) = Labeled::from_pb(addr, &labels) {
            r.push(labeled);
        }
    }
    assert(addrs.take(addrs.len() as int) =~= addrs);
    r
}

/// The socket addresses of a message.
pub fn plain_addrs(set: &AddrSet) -> (r: Vec<SocketAddr>)
    ensures
        r@.map_values(|addr: SocketAddr| addr@) == sock_addrs(set.addrs@),
{
    let ghost addrs = set.addrs@;
    let ghost usable = |addr: TcpAddress| sock_addr(addr) is Some;
    let ghost meant = |addr: TcpAddress| sock_addr(addr)->0;
    let ghost view = |addr: SocketAddr| addr@;
    let mut r: Vec<SocketAddr> = Vec::new();
    let mut i: usize = 0;
    proof {
        reveal(Seq::filter);
        assert(r@.map_values(view) =~= addrs.take(0).filter(usable).map_values(meant));
    }
    while i < set.addrs.len()
        invariant
            addrs == set.addrs@,
            i <= addrs.len(),
            usable == (|addr: TcpAddress| sock_addr(addr) is Some),
            meant == (|addr: TcpAddress| sock_addr(addr)->0),
            view == (|addr: SocketAddr| addr@),
            r@.map_values(view) == addrs.take(i as int).filter(usable).map_values(meant),
        decreases addrs.len() - i,
    {
        let ghost before = r@;
        let ghost kept = addrs.take(i as int).filter(usable);
        proof {
            reveal(Seq::filter);
            assert(addrs.take(i + 1).drop_last() =~= addrs.take(i as int));
            assert(addrs.take(i + 1).last() == addrs[i as int]);
        }
        if let Some(addr) = pb_to_sock_addr(set.addrs[i]) {
            r.push(addr);
            assert(r@.map_values(view) =~= before.map_values(view).push(addr@));
            assert(kept.push(addrs[i as int]).map_values(meant) =~= kept.map_values(meant).push(
                addr@,
            ));
        }
        i = i + 1;
    }
    assert(addrs.take(i as int) =~= addrs);
    r
}

/// Whether `after` is the sender of a new watch once the known endpoints have been sent
/// to it, and taken.
pub open spec fn greeted(
    before: UnboundedSender<Update>,
    known: Seq<Labeled<SocketAddr>>,
    after: UnboundedSender<Update>,
) -> bool {
    &&& posted(after) == posted(before) + known.map_values(
        |addr: Labeled<SocketAddr>| (Update::Insert(addr), true),
    )
    &&& forall|rx: UnboundedReceiver<Update>| #[trigger] feeds(after, rx) == feeds(before, rx)
}

/// Whether `values` may report that `cache` holds `known`.
pub open spec fn holds<C, V: Fn(&C) -> Vec<Labeled<SocketAddr>>>(
    values: V,
    cache: C,
    known: Seq<Labeled<SocketAddr>>,
) -> bool {
    exists|c: &C, list: Vec<Labeled<SocketAddr>>|
        #![trigger call_ensures(values, (c,), list)]
        *c == cache && call_ensures(values, (c,), list) && list@ == known
}

/// Whether `values` can be asked of any cache.
pub open spec fn reads<C, V: Fn(&C) -> Vec<Labeled<SocketAddr>>>(values: V) -> bool {
    forall|c: &C| #[trigger] call_requires(values, (c,))
}

/// The state after a watch joined: it has been sent the endpoints that are known already, and its
/// sender comes last.
pub open spec fn joined<C, W, S, V: Fn(&C) -> Vec<Labeled<SocketAddr>>>(
    before: SetState<C, W, S>,
    tx: UnboundedSender<Update>,
    values: V,
    after: SetState<C, W, S>,
) -> bool {
    &&& after.addrs == before.addrs
    &&& after.query == before.query
    &&& match before.addrs {
        Exists::Yes(cache) => exists|
            known: Seq<Labeled<SocketAddr>>,
            joining: UnboundedSender<Update>,
        |
            {
                &&& #[trigger] holds(values, cache, known)
                &&& #[trigger] greeted(tx, known, joining)
                &&& after.txs == before.txs.push(joining)
            },
        _ => after.txs == before.txs.push(tx),
    }
}

/// Whether a watch was gone before it could join: of the endpoints that are known already it was
/// sent some, and then one that its channel did not take.
pub open spec fn gone<C, W, S, V: Fn(&C) -> Vec<Labeled<SocketAddr>>>(
    before: SetState<C, W, S>,
    tx: UnboundedSender<Update>,
    values: V,
) -> bool {
    &&& before.addrs is Yes
    &&& exists|
        known: Seq<Labeled<SocketAddr>>,
        n: int,
        mid: UnboundedSender<Update>,
        leaving: UnboundedSender<Update>,
    |
        {
            &&& #[trigger] holds(values, before.addrs->Yes_0, known)
            &&& 0 <= n < known.len()
            &&& #[trigger] greeted(tx, known.take(n), mid)
            &&& #[trigger] attempted(mid, Update::Insert(known[n]), leaving)
            &&& !taken_last(leaving)
        }
}

/// Tells every watch of a change, and drops the senders that are dead.
pub fn on_change(
    txs: &mut Vec<UnboundedSender<Update>>,
    addr: Labeled<SocketAddr>,
    change: CacheChange,
)
    ensures
        broadcast_one(old(txs)@, update_for((addr, change)), final(txs)@),
{
    let ghost update = update_for((addr, change));
    let ghost before = txs@;
    let ghost live = |tx: UnboundedSender<Update>| taken_last(tx);
    let ghost mut tried: Seq<UnboundedSender<Update>> = Seq::empty();
    let mut i: usize = 0;
    proof {
        reveal(Seq::filter);
        assert(tried.filter(live) =~= Seq::empty());
    }
    while i < txs.len()
        invariant
            update == update_for((addr, change)),
            live == (|tx: UnboundedSender<Update>| taken_last(tx)),
            tried.len() <= before.len(),
            i == tried.filter(live).len(),
            txs@ == tried.filter(live) + before.skip(tried.len() as int),
            forall|j: int|
                0 <= j < tried.len() ==> attempted(before[j], update, #[trigger] tried[j]),
        decreases before.len() - tried.len(),
    {
        let ghost done = tried;
        let message = match change {
            CacheChange::Insertion => Update::Insert(addr.clone()),
            CacheChange::Removal => Update::Remove(addr.clone()),
        };
        assert(txs@[i as int] == before[done.len() as int]);
        let sent = send_update(&mut txs[i], message);
        proof {
            tried = done.push(txs@[i as int]);
            reveal(Seq::filter);
            assert(tried.drop_last() =~= done);
        }
        match sent {
            Ok(()) => {
                i = i + 1;
            },
            Err(_) => {
                txs.remove(i);
            },
        }
        assert(txs@ =~= tried.filter(live) + before.skip(tried.len() as int));
    }
    assert(txs@ =~= tried.filter(live));
    assert(all_attempted(before, update, tried));
}

/// Tells every watch of changes, one after the other.
pub fn on_changes(
    txs: &mut Vec<UnboundedSender<Update>>,
    changes: &Vec<(Labeled<SocketAddr>, CacheChange)>,
)
    ensures
        broadcast_all(old(txs)@, updates_for(changes@), final(txs)@),
{
    let ghost before = txs@;
    let ghost updates = updates_for(changes@);
    let mut i: usize = 0;
    assert(updates.take(0) =~= Seq::empty());
    while i < changes.len()
        invariant
            i <= changes@.len(),
            updates == updates_for(changes@),
            broadcast_all(before, updates.take(i as int), txs@),
        decreases changes@.len() - i,
    {
        let ghost mid = txs@;
        let addr = changes[i].0.clone();
        let change = changes[i].1;
        on_change(txs, addr, change);
        i = i + 1;
        proof {
            assert(addr == changes@[i - 1].0);
            assert(updates[i - 1] == update_for((addr, change)));
            assert(updates.take(i as int).drop_last() =~= updates.take(i - 1));
            assert(updates.take(i as int).last() == updates[i - 1]);
            assert(broadcast_all(before, updates.take(i as int).drop_last(), mid));
        }
    }
    assert(updates.take(i as int) =~= updates);
}

impl<C, W, S> DestinationSet<C, W, S> {
    /// Takes up what came of polling the stream of updates: an update is applied and the stream is
    /// polled again; a stream that ended or failed must be reconnected; one that has nothing for
    /// now is kept.
    pub fn poll_destination<F>(&mut self, polled: RxPoll<W, S>, run: &F) -> (r: SetPoll<W, S>)
        where F: Fn(CacheOp<C>) -> CacheReply<C>
        requires
            runs::<C, F>(*run),
        ensures
            match polled {
                RxPoll::Again(rx) => r == SetPoll::Poll(rx) && final(self)@ == old(self)@,
                RxPoll::Ready(rx, update) => r == SetPoll::Poll(rx) && applied(
                    old(self)@,
                    update,
                    *run,
                    final(self)@,
                ),
                RxPoll::Ended | RxPoll::Failed(_) => {
                    &&& r == SetPoll::<W, S>::Return(DestinationServiceQuery::NeedsReconnect)
                    &&& final(self)@ == old(self)@
                },
                RxPoll::NotReady(rx) => {
                    &&& r == SetPoll::Return(DestinationServiceQuery::ConnectedOrConnecting { rx })
                    &&& final(self)@ == old(self)@
                },
            },
    {
        match polled {
            RxPoll::Again(rx) => SetPoll::Poll(rx),
            RxPoll::Ready(rx, update) => {
                match update.update {
                    Some(PbUpdate2::Add(set)) => self.add(labeled_addrs(set), run),
                    Some(PbUpdate2::Remove(set)) => self.remove(plain_addrs(&set), run),
                    Some(PbUpdate2::NoEndpoints(none)) => self.no_endpoints(none.exists, run),
                    None => (),
                }
                SetPoll::Poll(rx)
            },
            RxPoll::Ended => SetPoll::Return(DestinationServiceQuery::NeedsReconnect),
            RxPoll::Failed(_) => SetPoll::Return(DestinationServiceQuery::NeedsReconnect),
            RxPoll::NotReady(rx) => SetPoll::Return(
                DestinationServiceQuery::ConnectedOrConnecting { rx },
            ),
        }
    }

    /// Lets a watch join. We may already know of some addresses, so they are pushed onto the new
    /// watch first; where it does not take them, it is gone, and does not join.
    pub fn join<V>(&mut self, tx: UnboundedSender<Update>, values: &V) -> (r: Result<
        (),
        WatchGone,
    >)
        where V: Fn(&C) -> Vec<Labeled<SocketAddr>>
        requires
            reads::<C, V>(*values),
        ensures
            match r {
                Ok(()) => joined(old(self)@, tx, *values, final(self)@),
                Err(_) => gone(old(self)@, tx, *values) && final(self)@ == old(self)@,
            },
    {
        let mut joining = tx;
        if let Exists::Yes(cache) = &self.addrs {
            let list = values(cache);
            let ghost known = list@;
            let ghost entry = |addr: Labeled<SocketAddr>| (Update::Insert(addr), true);
            assert(call_ensures(*values, (cache,), list));
            assert(holds(*values, *cache, known));
            let mut i: usize = 0;
            assert(posted(tx) + known.take(0).map_values(entry) =~= posted(tx));
            while i < list.len()
                invariant
                    i <= list@.len(),
                    known == list@,
                    entry == (|addr: Labeled<SocketAddr>| (Update::Insert(addr), true)),
                    self@ == old(self)@,
                    *cache == self.addrs->Yes_0,
                    self.addrs is Yes,
                    holds(*values, *cache, known),
                    greeted(tx, known.take(i as int), joining),
                decreases list@.len() - i,
            {
                let ghost mid = joining;
                let addr = list[i].clone();
                assert(addr == known[i as int]);
                let sent = send_update(&mut joining, Update::Insert(addr));
                if sent.is_err() {
                    assert(posted(mid).push((Update::Insert(known[i as int]), false)) == posted(
                        joining,
                    ));
                    assert(attempted(mid, Update::Insert(known[i as int]), joining));
                    return Err(WatchGone {  });
                }
                i = i + 1;
                assert(known.take(i as int).map_values(entry) =~= known.take(i - 1).map_values(
                    entry,
                ).push(entry(known[i - 1])));
                assert(posted(joining) =~= posted(tx) + known.take(i as int).map_values(entry));
            }
            assert(known.take(i as int) =~= known);
        }
        self.txs.push(joining);
        Ok(())
    }

    /// Lets the next modification of the cache replace what it holds.
    pub fn reset_on_next_modification<F>(&mut self, run: &F)
        where F: Fn(CacheOp<C>) -> CacheReply<C>
        requires
            runs::<C, F>(*run),
        ensures
            marked(old(self)@, *run, final(self)@),
    {
        match self.addrs.take() {
            Exists::Yes(cache) => {
                let reply = run(CacheOp::SetResetOnNextModification(cache));
                assert(answers(*run, CacheOp::SetResetOnNextModification(cache), reply));
                self.addrs = Exists::Yes(reply.cache);
            },
            other => {
                self.addrs = other;
            },
        }
    }

    /// Adds endpoints, and tells the watches what changed.
    pub fn add<F>(&mut self, addrs_to_add: Vec<Labeled<SocketAddr>>, run: &F)
        where F: Fn(CacheOp<C>) -> CacheReply<C>
        requires
            runs::<C, F>(*run),
        ensures
            added(old(self)@, addrs_to_add@, *run, final(self)@),
    {
        let cache = match self.addrs.take() {
            Exists::Yes(cache) => cache,
            Exists::Unknown | Exists::No => {
                let reply = run(CacheOp::New);
                assert(answers(*run, CacheOp::New, reply));
                reply.cache
            },
        };
        let reply = run(CacheOp::Extend(cache, addrs_to_add));
        assert(answers(*run, CacheOp::Extend(cache, addrs_to_add), reply));
        on_changes(&mut self.txs, &reply.changes);
        self.addrs = Exists::Yes(reply.cache);
    }

    /// Removes endpoints, and tells the watches what changed.
    pub fn remove<F>(&mut self, addrs_to_remove: Vec<SocketAddr>, run: &F)
        where F: Fn(CacheOp<C>) -> CacheReply<C>
        requires
            runs::<C, F>(*run),
        ensures
            removed(
                old(self)@,
                addrs_to_remove@.map_values(|addr: SocketAddr| addr@),
                *run,
                final(self)@,
            ),
    {
        let cache = match self.addrs.take() {
            Exists::Yes(cache) => {
                let reply = run(CacheOp::Remove(cache, addrs_to_remove));
                assert(answers(*run, CacheOp::Remove(cache, addrs_to_remove), reply));
                on_changes(&mut self.txs, &reply.changes);
                reply.cache
            },
            Exists::Unknown | Exists::No => {
                let reply = run(CacheOp::New);
                assert(answers(*run, CacheOp::New, reply));
                reply.cache
            },
        };
        self.addrs = Exists::Yes(cache);
    }

    /// Gives up every endpoint, and tells the watches what changed.
    pub fn no_endpoints<F>(&mut self, name_exists: bool, run: &F)
        where F: Fn(CacheOp<C>) -> CacheReply<C>
        requires
            runs::<C, F>(*run),
        ensures
            emptied(old(self)@, name_exists, *run, final(self)@),
    {
        match self.addrs.take() {
            Exists::Yes(cache) => {
                let reply = run(CacheOp::Clear(cache));
                assert(answers(*run, CacheOp::Clear(cache), reply));
                on_changes(&mut self.txs, &reply.changes);
            },
            Exists::Unknown | Exists::No => (),
        }
        self.addrs = if name_exists {
            let reply = run(CacheOp::New);
            assert(answers(*run, CacheOp::New, reply));
            Exists::Yes(reply.cache)
        } else {
            Exists::No
        };
    }
}

} // verus!
