//! What the operations are for, told by what goes in and what comes out.
//!
//! The laws speak of messages, of calls of the caller's functions and of what senders were handed.
//! They start from a call of a function, or from the relation that its contract gives, and end in
//! plain facts about inputs and results.
use crate::addr::{
    octets_of_ip, octets_of_u32, octets_of_u64, pb_to_sock_addr, sock_addr, Ip, IpAddr, IpAddress,
    SocketAddr, TcpAddress,
};
use crate::cache::{answers, is_new, updates_for, CacheChange, CacheOp, CacheReply, Exists};
use crate::channel::{attempted, posted, taken_last};
use crate::labels::{has_sock_addr, labeled_from, Labeled, Update};
use crate::laws::{reached, same_channel};
use crate::pb::{AddrSet, NoEndpoints, PbUpdate, PbUpdate2, WeightedAddr, WeightedAddrSet};
use crate::query::{DestinationServiceQuery, RxPoll};
use crate::set::{
    added, all_attempted, applied, broadcast_all, broadcast_one, emptied, gone, greeted, holds,
    joined, labeled_addrs, labeled_all, marked, on_change, on_changes, plain_addrs, removed,
    sock_addrs, DestinationSet, SetPoll, SetState, WatchGone,
};
use futures::sync::mpsc::UnboundedSender;
use std::collections::HashMap;
use std::sync::Arc;
use vstd::prelude::*;

verus! {

/// The number that the four octets from `k` on spell in network order.
pub open spec fn spelled(octets: Seq<u8>, k: int) -> int {
    octets[k] * 0x100_0000 + octets[k + 1] * 0x1_0000 + octets[k + 2] * 0x100 + octets[k + 3]
}

/// Whether a message names an IP address.
pub open spec fn names_ip(pb: TcpAddress) -> bool {
    pb.ip is Some && pb.ip->0.ip is Some
}

/// Whether `addr` is the address that a message names: the same kind of IP address, whose octets
/// spell the numbers of the message in network order, and the low sixteen bits of the port.
pub open spec fn is_address_of(addr: SocketAddr, pb: TcpAddress) -> bool {
    &&& addr.port as int == pb.port as int % 0x1_0000
    &&& match (addr.ip, pb.ip) {
        (IpAddr::V4(octets), Some(IpAddress { ip: Some(Ip::Ipv4(bits)) })) => bits as int
            == spelled(octets@, 0),
        (IpAddr::V6(octets), Some(IpAddress { ip: Some(Ip::Ipv6(v6)) })) => {
            &&& v6.first as int == spelled(octets@, 0) * 0x1_0000_0000 + spelled(octets@, 4)
            &&& v6.last as int == spelled(octets@, 8) * 0x1_0000_0000 + spelled(octets@, 12)
        },
        _ => false,
    }
}

/// The four octets of a number spell it.
proof fn lemma_spelled_u32(x: u32)
    ensures
        octets_of_u32(x).len() == 4,
        spelled(octets_of_u32(x), 0) == x,
{
}

/// The eight octets of a number spell it.
proof fn lemma_spelled_u64(x: u64)
    ensures
        octets_of_u64(x).len() == 8,
        spelled(octets_of_u64(x), 0) * 0x1_0000_0000 + spelled(octets_of_u64(x), 4) == x,
{
    let (hi, lo) = ((x / 0x1_0000_0000) as u32, (x % 0x1_0000_0000) as u32);
    lemma_spelled_u32(hi);
    lemma_spelled_u32(lo);
    let octets = octets_of_u64(x);
    assert(forall|k: int| 0 <= k < 4 ==> octets[k] == octets_of_u32(hi)[k]);
    assert(forall|k: int| 0 <= k < 4 ==> octets[4 + k] == #[trigger] octets_of_u32(lo)[k]);
    assert(spelled(octets, 0) == hi);
    assert(octets[4] == octets_of_u32(lo)[0]);
    assert(octets[5] == octets_of_u32(lo)[1]);
    assert(octets[6] == octets_of_u32(lo)[2]);
    assert(octets[7] == octets_of_u32(lo)[3]);
    assert(spelled(octets, 4) == lo);
}

/// An address whose view is that of a message is the message's address.
proof fn lemma_is_address_of(addr: SocketAddr, pb: TcpAddress)
    requires
        sock_addr(pb) == Some(addr@),
    ensures
        names_ip(pb),
        is_address_of(addr, pb),
{
    let ip = pb.ip->0.ip->0;
    let octets = octets_of_ip(ip);
    match ip {
        Ip::Ipv4(bits) => {
            lemma_spelled_u32(bits);
            assert(addr.ip is V4) by {
                if let IpAddr::V6(o) = addr.ip {
                    assert(o@.len() == 16);
                }
            }
        },
        Ip::Ipv6(v6) => {
            let (first, last) = (octets_of_u64(v6.first), octets_of_u64(v6.last));
            lemma_spelled_u64(v6.first);
            lemma_spelled_u64(v6.last);
            assert(addr.ip is V6) by {
                if let IpAddr::V4(o) = addr.ip {
                    assert(o@.len() == 4);
                }
            }
            assert(spelled(octets, 0) == spelled(first, 0));
            assert(spelled(octets, 4) == spelled(first, 4));
            assert(spelled(octets, 8) == spelled(last, 0));
            assert(spelled(octets, 12) == spelled(last, 4));
        },
    }
}

/// A message that names an IP address is turned into that address; one that names none into none.
pub proof fn law_address_is_the_one_the_message_names(pb: TcpAddress, r: Option<SocketAddr>)
    requires
        call_ensures(pb_to_sock_addr, (pb,), r),
    ensures
        r is Some <==> names_ip(pb),
        r matches Some(addr) ==> is_address_of(addr, pb),
{
    if let Some(addr) = r {
        lemma_is_address_of(addr, pb);
    }
}

/// Whether `list` are the endpoints of an addition, in their order, without those that name no
/// IP address: each is at its own address, with its own labels and with those that the message
/// gives to all.
pub open spec fn are_endpoints_of(
    list: Seq<Labeled<SocketAddr>>,
    addrs: Seq<WeightedAddr>,
    shared: HashMap<String, String>,
) -> bool {
    let named = addrs.filter(|pb: WeightedAddr| pb.addr is Some && names_ip(pb.addr->0));
    &&& list.len() == named.len()
    &&& forall|i: int|
        0 <= i < list.len() ==> {
            &&& is_address_of((#[trigger] list[i]).inner, named[i].addr->0)
            &&& *list[i].metric_labels.addr == named[i].metric_labels
            &&& *list[i].metric_labels.set == shared
        }
}

/// Whether `list` are the addresses of a removal, in their order, without those that name no IP
/// address.
pub open spec fn are_addresses_of(list: Seq<SocketAddr>, addrs: Seq<TcpAddress>) -> bool {
    let named = addrs.filter(|pb: TcpAddress| names_ip(pb));
    &&& list.len() == named.len()
    &&& forall|i: int| 0 <= i < list.len() ==> is_address_of(#[trigger] list[i], named[i])
}

/// Labeled endpoints are the endpoints of the message.
proof fn lemma_are_endpoints_of(
    list: Seq<Labeled<SocketAddr>>,
    addrs: Seq<WeightedAddr>,
    shared: HashMap<String, String>,
)
    requires
        labeled_all(addrs, shared, list),
    ensures
        are_endpoints_of(list, addrs, shared),
{
    let usable = |pb: WeightedAddr| has_sock_addr(pb);
    let named = |pb: WeightedAddr| pb.addr is Some && names_ip(pb.addr->0);
    assert(usable =~= named);
    assert forall|i: int| 0 <= i < list.len() implies {
        &&& is_address_of((#[trigger] list[i]).inner, addrs.filter(named)[i].addr->0)
        &&& *list[i].metric_labels.addr == addrs.filter(named)[i].metric_labels
        &&& *list[i].metric_labels.set == shared
    } by {
        let pb = addrs.filter(named)[i];
        assert(labeled_from(pb, shared, list[i]));
        lemma_is_address_of(list[i].inner, pb.addr->0);
    }
}

/// Addresses with the views of a message's addresses are its addresses.
proof fn lemma_are_addresses_of(list: Seq<SocketAddr>, addrs: Seq<TcpAddress>)
    requires
        list.map_values(|addr: SocketAddr| addr@) == sock_addrs(addrs),
    ensures
        are_addresses_of(list, addrs),
{
    let usable = |pb: TcpAddress| sock_addr(pb) is Some;
    let named = |pb: TcpAddress| names_ip(pb);
    assert(usable =~= named);
    let views = list.map_values(|addr: SocketAddr| addr@);
    let kept = addrs.filter(usable);
    assert(views.len() == kept.len());
    assert forall|i: int| 0 <= i < list.len() implies is_address_of(
        #[trigger] list[i],
        addrs.filter(named)[i],
    ) by {
        assert(views[i] == list[i]@);
        addrs.lemma_filter_pred(usable, i);
        assert(sock_addrs(addrs)[i] == sock_addr(kept[i])->0);
        lemma_is_address_of(list[i], kept[i]);
    }
}

/// One endpoint of an addition: it is there exactly if the message names an IP address, at that
/// address, with its own labels and those of the set.
pub proof fn law_endpoint_keeps_its_own_labels(
    pb: WeightedAddr,
    shared: &Arc<HashMap<String, String>>,
    r: Option<Labeled<SocketAddr>>,
)
    requires
        call_ensures(Labeled::<SocketAddr>::from_pb, (pb, shared), r),
    ensures
        r is Some <==> pb.addr is Some && names_ip(pb.addr->0),
        r matches Some(labeled) ==> {
            &&& is_address_of(labeled.inner, pb.addr->0)
            &&& *labeled.metric_labels.addr == pb.metric_labels
            &&& labeled.metric_labels.set == *shared
        },
{
    if let Some(labeled) = r {
        lemma_is_address_of(labeled.inner, pb.addr->0);
    }
}

/// The endpoints of an addition: the i-th that comes out is at the address of the i-th that names
/// one, under exactly the labels of that one and those of the message.
pub proof fn law_endpoints_keep_their_own_labels(
    set: WeightedAddrSet,
    r: Vec<Labeled<SocketAddr>>,
)
    requires
        call_ensures(labeled_addrs, (set,), r),
    ensures
        are_endpoints_of(r@, set.addrs@, set.metric_labels),
{
    lemma_are_endpoints_of(r@, set.addrs@, set.metric_labels);
}

/// The addresses of a removal: each that the message names comes out, in order, and nothing else.
pub proof fn law_removal_lists_every_address(set: AddrSet, r: Vec<SocketAddr>)
    requires
        call_ensures(plain_addrs, (&set,), r),
    ensures
        are_addresses_of(r@, set.addrs@),
{
    lemma_are_addresses_of(r@, set.addrs@);
}

/// What a watch is to be told of a change.
pub open spec fn news(change: (Labeled<SocketAddr>, CacheChange)) -> Update {
    if change.1 == CacheChange::Insertion {
        Update::Insert(change.0)
    } else {
        Update::Remove(change.0)
    }
}

/// What a watch is to be told of changes, in their order.
pub open spec fn all_news(changes: Seq<(Labeled<SocketAddr>, CacheChange)>) -> Seq<Update> {
    Seq::new(changes.len(), |k: int| news(changes[k]))
}

/// Whether `last` is the sender `first` at the end: the first `n` updates were sent to it and taken,
/// and the next was refused.
pub open spec fn refused_at(
    first: UnboundedSender<Update>,
    updates: Seq<Update>,
    n: int,
    last: UnboundedSender<Update>,
) -> bool {
    &&& 0 <= n < updates.len()
    &&& same_channel(last, first)
    &&& posted(last) == posted(first) + updates.take(n).map_values(
        |update: Update| (update, true),
    ).push((updates[n], false))
}

/// Whether the sender `first` was sent some of the updates, and then one that its channel refused.
pub open spec fn refused(first: UnboundedSender<Update>, updates: Seq<Update>) -> bool {
    exists|n: int, last: UnboundedSender<Update>| #[trigger] refused_at(first, updates, n, last)
}

/// Whether `after` are those of the senders `before` that took every update, `after[j]` being
/// `before[origin[j]]`: they keep their order, each was sent every update in turn, and each that is
/// missing refused one.
pub open spec fn delivered_from(
    origin: Seq<int>,
    before: Seq<UnboundedSender<Update>>,
    updates: Seq<Update>,
    after: Seq<UnboundedSender<Update>>,
) -> bool {
    &&& origin.len() == after.len()
    &&& forall|j: int| 0 <= j < after.len() ==> 0 <= #[trigger] origin[j] < before.len()
    &&& forall|j: int, k: int|
        0 <= j < k < after.len() ==> (#[trigger] origin[j]) < (#[trigger] origin[k])
    &&& forall|j: int|
        0 <= j < after.len() ==> reached(before[origin[j]], updates, #[trigger] after[j])
    &&& forall|i: int|
        0 <= i < before.len() && !origin.contains(i) ==> refused(#[trigger] before[i], updates)
}

/// Whether all watches were told of changes, one after the other, and only the dead dropped.
pub open spec fn told(
    before: Seq<UnboundedSender<Update>>,
    changes: Seq<(Labeled<SocketAddr>, CacheChange)>,
    after: Seq<UnboundedSender<Update>>,
) -> bool {
    exists|origin: Seq<int>| #[trigger]
        delivered_from(origin, before, all_news(changes), after)
}

/// Where the elements that are kept come from.
proof fn lemma_filter_origin(
    tried: Seq<UnboundedSender<Update>>,
    live: spec_fn(UnboundedSender<Update>) -> bool,
) -> (origin: Seq<int>)
    ensures
        origin.len() == tried.filter(live).len(),
        forall|j: int|
            0 <= j < origin.len() ==> {
                &&& 0 <= #[trigger] origin[j] < tried.len()
                &&& tried[origin[j]] == tried.filter(live)[j]
                &&& live(tried[origin[j]])
            },
        forall|j: int, k: int|
            0 <= j < k < origin.len() ==> (#[trigger] origin[j]) < (#[trigger] origin[k]),
        forall|i: int|
            0 <= i < tried.len() && !origin.contains(i) ==> !live(#[trigger] tried[i]),
    decreases tried.len(),
{
    reveal(Seq::filter);
    if tried.len() == 0 {
        Seq::empty()
    } else {
        let rest = tried.drop_last();
        let origin = lemma_filter_origin(rest, live);
        let last = tried.len() - 1;
        if live(tried.last()) {
            let all = origin.push(last);
            assert forall|i: int| 0 <= i < tried.len() && !all.contains(i) implies !live(
                #[trigger] tried[i],
            ) by {
                if i == last {
                    assert(all[origin.len() as int] == i);
                } else {
                    assert(rest[i] == tried[i]);
                    if origin.contains(i) {
                        let j = choose|j: int| 0 <= j < origin.len() && origin[j] == i;
                        assert(all[j] == i);
                    }
                }
            }
            assert forall|j: int| 0 <= j < all.len() implies {
                &&& 0 <= #[trigger] all[j] < tried.len()
                &&& tried[all[j]] == tried.filter(live)[j]
                &&& live(tried[all[j]])
            } by {
                if j < origin.len() {
                    assert(all[j] == origin[j]);
                    assert(rest[origin[j]] == tried[origin[j]]);
                }
            }
            assert forall|j: int, k: int| 0 <= j < k < all.len() implies (#[trigger] all[j]) < (
            #[trigger] all[k]) by {
                assert(all[j] == origin[j]);
                if k < origin.len() {
                    assert(all[k] == origin[k]);
                }
            }
            all
        } else {
            assert forall|i: int| 0 <= i < tried.len() && !origin.contains(i) implies !live(
                #[trigger] tried[i],
            ) by {
                if i < last {
                    assert(rest[i] == tried[i]);
                }
            }
            assert forall|j: int| 0 <= j < origin.len() implies {
                &&& 0 <= #[trigger] origin[j] < tried.len()
                &&& tried[origin[j]] == tried.filter(live)[j]
                &&& live(tried[origin[j]])
            } by {
                assert(rest[origin[j]] == tried[origin[j]]);
            }
            origin
        }
    }
}

/// One update is delivered.
proof fn lemma_one_is_delivered(
    before: Seq<UnboundedSender<Update>>,
    update: Update,
    after: Seq<UnboundedSender<Update>>,
) -> (origin: Seq<int>)
    requires
        broadcast_one(before, update, after),
    ensures
        delivered_from(origin, before, seq![update], after),
{
    let live = |tx: UnboundedSender<Update>| taken_last(tx);
    let taken = |update: Update| (update, true);
    let updates = seq![update];
    let tried = choose|tried: Seq<UnboundedSender<Update>>|
        #[trigger] all_attempted(before, update, tried) && after == tried.filter(live);
    let origin = lemma_filter_origin(tried, live);
    assert forall|j: int| 0 <= j < after.len() implies reached(
        before[origin[j]],
        updates,
        #[trigger] after[j],
    ) by {
        let i = origin[j];
        assert(attempted(before[i], update, tried[i]));
        assert(posted(after[j]) =~= posted(before[i]) + updates.map_values(taken));
    }
    assert forall|i: int| 0 <= i < before.len() && !origin.contains(i) implies refused(
            #[trigger] before[i],
            updates,
        ) by {
        assert(attempted(before[i], update, tried[i]));
        assert(!live(tried[i]));
        assert(posted(tried[i]) =~= posted(before[i]) + updates.take(0).map_values(taken).push(
            (update, false),
        ));
        assert(refused_at(before[i], updates, 0, tried[i]));
    }
    origin
}

/// Who took all updates but the last, and refused that, refused one.
proof fn lemma_refused_last(
    first: UnboundedSender<Update>,
    updates: Seq<Update>,
    mid: UnboundedSender<Update>,
)
    requires
        updates.len() > 0,
        reached(first, updates.drop_last(), mid),
        refused(mid, seq![updates.last()]),
    ensures
        refused(first, updates),
{
    let taken = |update: Update| (update, true);
    let (n, last) = choose|n: int, last: UnboundedSender<Update>| #[trigger]
        refused_at(mid, seq![updates.last()], n, last);
    let k = updates.len() - 1;
    assert(updates.take(k) =~= updates.drop_last());
    assert(posted(last) =~= posted(first) + updates.take(k).map_values(taken).push(
        (updates[k], false),
    ));
    assert(refused_at(first, updates, k, last));
}

/// Who refused one of the updates before the last refused one.
proof fn lemma_refused_before_last(first: UnboundedSender<Update>, updates: Seq<Update>)
    requires
        updates.len() > 0,
        refused(first, updates.drop_last()),
    ensures
        refused(first, updates),
{
    let rest = updates.drop_last();
    let (n, last) = choose|n: int, last: UnboundedSender<Update>| #[trigger]
        refused_at(first, rest, n, last);
    assert(updates.take(n) =~= rest.take(n));
    assert(refused_at(first, updates, n, last));
}

/// Updates are delivered, one after the other.
proof fn lemma_all_are_delivered(
    before: Seq<UnboundedSender<Update>>,
    updates: Seq<Update>,
    after: Seq<UnboundedSender<Update>>,
) -> (origin: Seq<int>)
    requires
        broadcast_all(before, updates, after),
    ensures
        delivered_from(origin, before, updates, after),
    decreases updates.len(),
{
    let taken = |update: Update| (update, true);
    if updates.len() == 0 {
        let origin = Seq::new(before.len(), |i: int| i);
        assert forall|j: int| 0 <= j < after.len() implies reached(
            before[origin[j]],
            updates,
            #[trigger] after[j],
        ) by {
            assert(posted(after[j]) =~= posted(before[j]) + updates.map_values(taken));
        }
        assert forall|i: int| 0 <= i < before.len() && !origin.contains(i) implies refused(
            #[trigger] before[i],
            updates,
        ) by {
            assert(origin[i] == i);
        }
        origin
    } else {
        let rest = updates.drop_last();
        let update = updates.last();
        let mid = choose|mid: Seq<UnboundedSender<Update>>|
            broadcast_all(before, rest, mid) && #[trigger] broadcast_one(mid, update, after);
        let first = lemma_all_are_delivered(before, rest, mid);
        let then = lemma_one_is_delivered(mid, update, after);
        let origin = Seq::new(after.len(), |j: int| first[then[j]]);
        assert forall|j: int| 0 <= j < after.len() implies 0 <= #[trigger] origin[j]
            < before.len() by {
            assert(0 <= then[j] < mid.len());
        }
        assert forall|j: int, k: int| 0 <= j < k < after.len() implies (#[trigger] origin[j]) < (
        #[trigger] origin[k]) by {
            assert(then[j] < then[k]);
            assert(0 <= then[j] && then[k] < mid.len());
        }
        assert forall|j: int| 0 <= j < after.len() implies reached(
            before[origin[j]],
            updates,
            #[trigger] after[j],
        ) by {
            let m = then[j];
            assert(reached(mid[m], seq![update], after[j]));
            assert(reached(before[first[m]], rest, mid[m]));
            assert(posted(after[j]) =~= posted(before[origin[j]]) + updates.map_values(taken));
        }
        assert forall|i: int| 0 <= i < before.len() && !origin.contains(i) implies refused(
            #[trigger] before[i],
            updates,
        ) by {
            if first.contains(i) {
                let m = choose|m: int| 0 <= m < first.len() && first[m] == i;
                if then.contains(m) {
                    let j = choose|j: int| 0 <= j < then.len() && then[j] == m;
                    assert(origin[j] == i);
                }
                assert(reached(before[first[m]], rest, mid[m]));
                lemma_refused_last(before[i], updates, mid[m]);
            } else {
                lemma_refused_before_last(before[i], updates);
            }
        }
        origin
    }
}

/// Reported changes are told.
proof fn lemma_told(
    before: Seq<UnboundedSender<Update>>,
    changes: Seq<(Labeled<SocketAddr>, CacheChange)>,
    after: Seq<UnboundedSender<Update>>,
)
    requires
        broadcast_all(before, updates_for(changes), after),
    ensures
        told(before, changes, after),
{
    let updates = all_news(changes);
    assert(updates_for(changes) =~= updates);
    let origin = lemma_all_are_delivered(before, updates, after);
    assert(delivered_from(origin, before, updates, after));
}

/// Telling all watches of a change tells each of it, an insertion as one and a removal as one, and
/// drops exactly those that refused it.
pub proof fn law_change_is_told_to_all(addr: Labeled<SocketAddr>, change: CacheChange)
    ensures
        forall|txs: &mut Vec<UnboundedSender<Update>>|
            #[trigger] call_ensures(on_change, (txs, addr, change), ()) ==> told(
                (*txs)@,
                seq![(addr, change)],
                (*final(txs))@,
            ),
{
    assert forall|txs: &mut Vec<UnboundedSender<Update>>|
        #[trigger] call_ensures(on_change, (txs, addr, change), ()) implies told(
        (*txs)@,
        seq![(addr, change)],
        (*final(txs))@,
    ) by {
        let changes = seq![(addr, change)];
        let updates = all_news(changes);
        let origin = lemma_one_is_delivered((*txs)@, news((addr, change)), (*final(txs))@);
        assert(seq![news((addr, change))] =~= updates);
        assert(delivered_from(origin, (*txs)@, updates, (*final(txs))@));
    }
}

/// Telling all watches of changes tells each of every one, in order.
pub proof fn law_changes_are_told_to_all(changes: &Vec<(Labeled<SocketAddr>, CacheChange)>)
    ensures
        forall|txs: &mut Vec<UnboundedSender<Update>>|
            #[trigger] call_ensures(on_changes, (txs, changes), ()) ==> told(
                (*txs)@,
                changes@,
                (*final(txs))@,
            ),
{
    assert forall|txs: &mut Vec<UnboundedSender<Update>>|
        #[trigger] call_ensures(on_changes, (txs, changes), ()) implies told(
        (*txs)@,
        changes@,
        (*final(txs))@,
    ) by {
        lemma_told((*txs)@, changes@, (*final(txs))@);
    }
}

/// Whether `cache` is one that the caller made anew.
pub open spec fn is_fresh<C, F: Fn(CacheOp<C>) -> CacheReply<C>>(run: F, cache: C) -> bool {
    exists|reply: CacheReply<C>| #[trigger]
        call_ensures(run, (CacheOp::New,), reply) && reply.cache == cache
}

/// Whether the caller's cache was handed exactly `list` to take in, the one that was known or, where
/// there was none, a fresh one; what it became is what is known now, and all that it reported was
/// told to the watches.
pub open spec fn was_extended<C, W, S, F: Fn(CacheOp<C>) -> CacheReply<C>>(
    before: SetState<C, W, S>,
    list: Seq<Labeled<SocketAddr>>,
    run: F,
    after: SetState<C, W, S>,
) -> bool {
    &&& after.query == before.query
    &&& exists|cache: C, handed: Vec<Labeled<SocketAddr>>, reply: CacheReply<C>|
        {
            &&& #[trigger] call_ensures(run, (CacheOp::Extend(cache, handed),), reply)
            &&& before.addrs == Exists::Yes(cache) || !(before.addrs is Yes) && is_fresh(run, cache)
            &&& handed@.len() == list.len()
            &&& forall|k: int| 0 <= k < list.len() ==> handed@[k] == #[trigger] list[k]
            &&& after.addrs == Exists::Yes(reply.cache)
            &&& told(before.txs, reply.changes@, after.txs)
        }
}

/// Whether the caller's cache was handed exactly `list` to give up; what it became is what is known
/// now, and all that it reported was told to the watches. Where no cache was known, a fresh one is
/// known now, and nobody was told anything.
pub open spec fn was_reduced<C, W, S, F: Fn(CacheOp<C>) -> CacheReply<C>>(
    before: SetState<C, W, S>,
    list: Seq<SocketAddr>,
    run: F,
    after: SetState<C, W, S>,
) -> bool {
    &&& after.query == before.query
    &&& match before.addrs {
        Exists::Yes(cache) => exists|handed: Vec<SocketAddr>, reply: CacheReply<C>|
            {
                &&& #[trigger] call_ensures(run, (CacheOp::Remove(cache, handed),), reply)
                &&& handed@.len() == list.len()
                &&& forall|k: int| 0 <= k < list.len() ==> handed@[k] == #[trigger] list[k]
                &&& after.addrs == Exists::Yes(reply.cache)
                &&& told(before.txs, reply.changes@, after.txs)
            },
        _ => {
            &&& after.addrs is Yes
            &&& is_fresh(run, after.addrs->Yes_0)
            &&& after.txs == before.txs
        },
    }
}

/// Whether the caller's cache, where one was known, was cleared and all that it reported was told
/// to the watches; what is known now is a fresh cache, or that the name does not exist.
pub open spec fn was_emptied<C, W, S, F: Fn(CacheOp<C>) -> CacheReply<C>>(
    before: SetState<C, W, S>,
    name_exists: bool,
    run: F,
    after: SetState<C, W, S>,
) -> bool {
    &&& after.query == before.query
    &&& after.addrs is Yes <==> name_exists
    &&& after.addrs is No <==> !name_exists
    &&& after.addrs matches Exists::Yes(cache) ==> is_fresh(run, cache)
    &&& match before.addrs {
        Exists::Yes(cache) => exists|reply: CacheReply<C>| #[trigger]
            call_ensures(run, (CacheOp::Clear(cache),), reply) && told(
                before.txs,
                reply.changes@,
                after.txs,
            ),
        _ => after.txs == before.txs,
    }
}

/// Whether the caller's cache, where one was known, was told that the next modification replaces
/// what it holds; nothing else changed.
pub open spec fn was_marked<C, W, S, F: Fn(CacheOp<C>) -> CacheReply<C>>(
    before: SetState<C, W, S>,
    run: F,
    after: SetState<C, W, S>,
) -> bool {
    &&& after.query == before.query
    &&& after.txs == before.txs
    &&& match before.addrs {
        Exists::Yes(cache) => exists|reply: CacheReply<C>| #[trigger]
            call_ensures(run, (CacheOp::SetResetOnNextModification(cache),), reply)
                && after.addrs == Exists::Yes(reply.cache),
        _ => after.addrs == before.addrs,
    }
}

/// Whether what an update says was done: an addition extends the cache by the endpoints that the
/// message names, a removal makes it give up the addresses that the message names, a message of no
/// endpoints empties it, and an empty message changes nothing.
pub open spec fn was_taken_up<C, W, S, F: Fn(CacheOp<C>) -> CacheReply<C>>(
    before: SetState<C, W, S>,
    update: PbUpdate,
    run: F,
    after: SetState<C, W, S>,
) -> bool {
    match update.update {
        Some(PbUpdate2::Add(set)) => exists|list: Seq<Labeled<SocketAddr>>| #[trigger]
            are_endpoints_of(list, set.addrs@, set.metric_labels) && was_extended(
                before,
                list,
                run,
                after,
            ),
        Some(PbUpdate2::Remove(set)) => if before.addrs is Yes {
            exists|list: Seq<SocketAddr>| #[trigger]
                are_addresses_of(list, set.addrs@) && was_reduced(before, list, run, after)
        } else {
            was_reduced(before, Seq::empty(), run, after)
        },
        Some(PbUpdate2::NoEndpoints(none)) => was_emptied(before, none.exists, run, after),
        None => after == before,
    }
}

/// A new cache is fresh.
proof fn lemma_is_fresh<C, F: Fn(CacheOp<C>) -> CacheReply<C>>(run: F, cache: C)
    requires
        is_new(run, cache),
    ensures
        is_fresh(run, cache),
{
    let reply = choose|reply: CacheReply<C>| #[trigger]
        answers(run, CacheOp::New, reply) && reply.cache == cache;
    assert(call_ensures(run, (CacheOp::New,), reply));
}

/// Adding extends.
proof fn lemma_was_extended<C, W, S, F: Fn(CacheOp<C>) -> CacheReply<C>>(
    before: SetState<C, W, S>,
    addrs: Seq<Labeled<SocketAddr>>,
    run: F,
    after: SetState<C, W, S>,
)
    requires
        added(before, addrs, run, after),
    ensures
        was_extended(before, addrs, run, after),
{
    let (cache, list, reply) = choose|
        cache: C,
        list: Vec<Labeled<SocketAddr>>,
        reply: CacheReply<C>,
    |
        {
            &&& #[trigger] answers(run, CacheOp::Extend(cache, list), reply)
            &&& list@ == addrs
            &&& match before.addrs {
                Exists::Yes(known) => cache == known,
                _ => is_new(run, cache),
            }
            &&& after.addrs == Exists::Yes(reply.cache)
            &&& broadcast_all(before.txs, updates_for(reply.changes@), after.txs)
        };
    if !(before.addrs is Yes) {
        lemma_is_fresh(run, cache);
    }
    lemma_told(before.txs, reply.changes@, after.txs);
    assert(call_ensures(run, (CacheOp::Extend(cache, list),), reply));
}

/// Removing addresses with the views of `list` reduces by `list`.
proof fn lemma_was_reduced<C, W, S, F: Fn(CacheOp<C>) -> CacheReply<C>>(
    before: SetState<C, W, S>,
    list: Seq<SocketAddr>,
    run: F,
    after: SetState<C, W, S>,
)
    requires
        removed(before, list.map_values(|addr: SocketAddr| addr@), run, after),
    ensures
        was_reduced(before, list, run, after),
{
    let views = list.map_values(|addr: SocketAddr| addr@);
    match before.addrs {
        Exists::Yes(cache) => {
            let (handed, reply) = choose|handed: Vec<SocketAddr>, reply: CacheReply<C>|
                {
                    &&& #[trigger] answers(run, CacheOp::Remove(cache, handed), reply)
                    &&& handed@.map_values(|addr: SocketAddr| addr@) == views
                    &&& after.addrs == Exists::Yes(reply.cache)
                    &&& broadcast_all(before.txs, updates_for(reply.changes@), after.txs)
                };
            lemma_told(before.txs, reply.changes@, after.txs);
            assert(call_ensures(run, (CacheOp::Remove(cache, handed),), reply));
            let theirs = handed@.map_values(|addr: SocketAddr| addr@);
            assert(handed@.len() == theirs.len() && list.len() == views.len());
            assert forall|k: int| 0 <= k < list.len() implies handed@[k]
                == #[trigger] list[k] by {
                assert(theirs[k] == handed@[k]@ && views[k] == list[k]@);
                lemma_same_address(handed@[k], list[k]);
            }
        },
        _ => {
            lemma_is_fresh(run, after.addrs->Yes_0);
        },
    }
}

/// Addresses with the same view are the same.
proof fn lemma_same_address(a: SocketAddr, b: SocketAddr)
    requires
        a@ == b@,
    ensures
        a == b,
{
    match (a.ip, b.ip) {
        (IpAddr::V4(x), IpAddr::V6(y)) => {
            assert(x@.len() == 4 && y@.len() == 16);
        },
        (IpAddr::V6(x), IpAddr::V4(y)) => {
            assert(x@.len() == 16 && y@.len() == 4);
        },
        (IpAddr::V4(x), IpAddr::V4(y)) => {
            assert(x =~= y);
        },
        (IpAddr::V6(x), IpAddr::V6(y)) => {
            assert(x =~= y);
        },
    }
}

/// Emptying empties.
proof fn lemma_was_emptied<C, W, S, F: Fn(CacheOp<C>) -> CacheReply<C>>(
    before: SetState<C, W, S>,
    name_exists: bool,
    run: F,
    after: SetState<C, W, S>,
)
    requires
        emptied(before, name_exists, run, after),
    ensures
        was_emptied(before, name_exists, run, after),
{
    if let Exists::Yes(cache) = before.addrs {
        let reply = choose|reply: CacheReply<C>|
            {
                &&& #[trigger] answers(run, CacheOp::Clear(cache), reply)
                &&& broadcast_all(before.txs, updates_for(reply.changes@), after.txs)
            };
        lemma_told(before.txs, reply.changes@, after.txs);
        assert(call_ensures(run, (CacheOp::Clear(cache),), reply));
    }
    if let Exists::Yes(cache) = after.addrs {
        lemma_is_fresh(run, cache);
    }
}

/// Marking marks.
pub(crate) proof fn lemma_was_marked<C, W, S, F: Fn(CacheOp<C>) -> CacheReply<C>>(
    before: SetState<C, W, S>,
    run: F,
    after: SetState<C, W, S>,
)
    requires
        marked(before, run, after),
    ensures
        was_marked(before, run, after),
{
    if let Exists::Yes(cache) = before.addrs {
        let reply = choose|reply: CacheReply<C>|
            {
                &&& #[trigger] answers(run, CacheOp::SetResetOnNextModification(cache), reply)
                &&& after.addrs == Exists::Yes(reply.cache)
            };
        assert(call_ensures(run, (CacheOp::SetResetOnNextModification(cache),), reply));
    }
}

/// What an update says is done: whatever the message, the cache is handed exactly the endpoints, or
/// the addresses, that the message names, each under its own labels, and each change that the cache
/// reports is told to every watch in order.
pub proof fn law_update_is_taken_up<C, W, S, F: Fn(CacheOp<C>) -> CacheReply<C>>(
    before: SetState<C, W, S>,
    update: PbUpdate,
    run: F,
    after: SetState<C, W, S>,
)
    requires
        applied(before, update, run, after),
    ensures
        was_taken_up(before, update, run, after),
        after.query == before.query,
{
    match update.update {
        Some(PbUpdate2::Add(set)) => {
            let addrs = choose|addrs: Seq<Labeled<SocketAddr>>| #[trigger]
                labeled_all(set.addrs@, set.metric_labels, addrs) && added(
                    before,
                    addrs,
                    run,
                    after,
                );
            lemma_are_endpoints_of(addrs, set.addrs@, set.metric_labels);
            lemma_was_extended(before, addrs, run, after);
        },
        Some(PbUpdate2::Remove(set)) => {
            match before.addrs {
                Exists::Yes(cache) => {
                    let (list, reply) = choose|list: Vec<SocketAddr>, reply: CacheReply<C>|
                        {
                            &&& #[trigger] answers(run, CacheOp::Remove(cache, list), reply)
                            &&& list@.map_values(|addr: SocketAddr| addr@) == sock_addrs(set.addrs@)
                            &&& after.addrs == Exists::Yes(reply.cache)
                            &&& broadcast_all(before.txs, updates_for(reply.changes@), after.txs)
                        };
                    lemma_are_addresses_of(list@, set.addrs@);
                    lemma_was_reduced(before, list@, run, after);
                },
                _ => {
                    lemma_is_fresh(run, after.addrs->Yes_0);
                },
            }
        },
        Some(PbUpdate2::NoEndpoints(none)) => {
            lemma_was_emptied(before, none.exists, run, after);
        },
        None => {},
    }
}

/// Adding hands the cache exactly what is to be added.
pub proof fn law_add_hands_over_every_endpoint<C, W, S, F: Fn(CacheOp<C>) -> CacheReply<C>>(
    addrs: Vec<Labeled<SocketAddr>>,
    run: &F,
)
    ensures
        forall|set: &mut DestinationSet<C, W, S>|
            #[trigger] call_ensures(
                DestinationSet::<C, W, S>::add::<F>,
                (set, addrs, run),
                (),
            ) ==> was_extended((*set)@, addrs@, *run, (*final(set))@),
{
    assert forall|set: &mut DestinationSet<C, W, S>|
        #[trigger] call_ensures(
            DestinationSet::<C, W, S>::add::<F>,
            (set, addrs, run),
            (),
        ) implies was_extended((*set)@, addrs@, *run, (*final(set))@) by {
        lemma_was_extended((*set)@, addrs@, *run, (*final(set))@);
    }
}

/// Removing makes the cache give up every address that is to be removed, and no other.
pub proof fn law_remove_gives_up_every_address<C, W, S, F: Fn(CacheOp<C>) -> CacheReply<C>>(
    addrs: Vec<SocketAddr>,
    run: &F,
)
    ensures
        forall|set: &mut DestinationSet<C, W, S>|
            #[trigger] call_ensures(
                DestinationSet::<C, W, S>::remove::<F>,
                (set, addrs, run),
                (),
            ) ==> was_reduced((*set)@, addrs@, *run, (*final(set))@),
{
    assert forall|set: &mut DestinationSet<C, W, S>|
        #[trigger] call_ensures(
            DestinationSet::<C, W, S>::remove::<F>,
            (set, addrs, run),
            (),
        ) implies was_reduced((*set)@, addrs@, *run, (*final(set))@) by {
        lemma_was_reduced((*set)@, addrs@, *run, (*final(set))@);
    }
}

/// A name without endpoints has none left, and every watch was told what went.
pub proof fn law_no_endpoints_leaves_none<C, W, S, F: Fn(CacheOp<C>) -> CacheReply<C>>(
    name_exists: bool,
    run: &F,
)
    ensures
        forall|set: &mut DestinationSet<C, W, S>|
            #[trigger] call_ensures(
                DestinationSet::<C, W, S>::no_endpoints::<F>,
                (set, name_exists, run),
                (),
            ) ==> was_emptied((*set)@, name_exists, *run, (*final(set))@),
{
    assert forall|set: &mut DestinationSet<C, W, S>|
        #[trigger] call_ensures(
            DestinationSet::<C, W, S>::no_endpoints::<F>,
            (set, name_exists, run),
            (),
        ) implies was_emptied((*set)@, name_exists, *run, (*final(set))@) by {
        lemma_was_emptied((*set)@, name_exists, *run, (*final(set))@);
    }
}

/// A cache that is to be reset is told so, and nothing else changes.
pub proof fn law_reset_is_passed_on<C, W, S, F: Fn(CacheOp<C>) -> CacheReply<C>>(run: &F)
    ensures
        forall|set: &mut DestinationSet<C, W, S>|
            #[trigger] call_ensures(
                DestinationSet::<C, W, S>::reset_on_next_modification::<F>,
                (set, run),
                (),
            ) ==> was_marked((*set)@, *run, (*final(set))@),
{
    assert forall|set: &mut DestinationSet<C, W, S>|
        #[trigger] call_ensures(
            DestinationSet::<C, W, S>::reset_on_next_modification::<F>,
            (set, run),
            (),
        ) implies was_marked((*set)@, *run, (*final(set))@) by {
        lemma_was_marked((*set)@, *run, (*final(set))@);
    }
}

/// Polling a stream for a name: an update is taken up and the stream is polled again; a lost stream
/// must be reconnected; one that has nothing for now is kept; and only an update changes the set.
pub proof fn law_polled_stream_is_followed<C, W, S, F: Fn(CacheOp<C>) -> CacheReply<C>>(
    polled: RxPoll<W, S>,
    run: &F,
)
    ensures
        forall|set: &mut DestinationSet<C, W, S>, r: SetPoll<W, S>|
            #[trigger] call_ensures(
                DestinationSet::<C, W, S>::poll_destination::<F>,
                (set, polled, run),
                r,
            ) ==> {
                &&& match r {
                    SetPoll::Poll(rx) => match polled {
                        RxPoll::Again(same) => rx == same,
                        RxPoll::Ready(same, _) => rx == same,
                        _ => false,
                    },
                    SetPoll::Return(DestinationServiceQuery::NeedsReconnect) => polled is Ended
                        || polled is Failed,
                    SetPoll::Return(DestinationServiceQuery::ConnectedOrConnecting { rx }) => polled
                        == RxPoll::NotReady(rx),
                }
                &&& match polled {
                    RxPoll::Ready(_, update) => was_taken_up(
                        (*set)@,
                        update,
                        *run,
                        (*final(set))@,
                    ),
                    _ => (*final(set))@ == (*set)@,
                }
            },
{
    assert forall|set: &mut DestinationSet<C, W, S>, r: SetPoll<W, S>|
        #[trigger] call_ensures(
            DestinationSet::<C, W, S>::poll_destination::<F>,
            (set, polled, run),
            r,
        ) && polled is Ready implies was_taken_up(
        (*set)@,
        polled->Ready_1,
        *run,
        (*final(set))@,
    ) by {
        law_update_is_taken_up((*set)@, polled->Ready_1, *run, (*final(set))@);
    }
}

/// Whether `tx` became `joining` by being sent the endpoints that a cache was listed to hold, each as
/// one that came, in their order, and its channel took them all.
pub open spec fn was_greeted<C, V: Fn(&C) -> Vec<Labeled<SocketAddr>>>(
    tx: UnboundedSender<Update>,
    cache: C,
    values: V,
    joining: UnboundedSender<Update>,
) -> bool {
    &&& same_channel(joining, tx)
    &&& exists|c: &C, list: Vec<Labeled<SocketAddr>>|
        {
            &&& #[trigger] call_ensures(values, (c,), list)
            &&& *c == cache
            &&& posted(joining).len() == posted(tx).len() + list@.len()
            &&& forall|k: int| 0 <= k < posted(tx).len() ==> posted(joining)[k] == posted(tx)[k]
            &&& forall|k: int|
                0 <= k < list@.len() ==> posted(joining)[posted(tx).len() + k] == (
                    Update::Insert(#[trigger] list@[k]),
                    true,
                )
        }
}

/// Whether a watch joined: it is the last of the senders, and was sent what is known; the others,
/// what is known and the query are as before.
pub open spec fn was_joined<C, W, S, V: Fn(&C) -> Vec<Labeled<SocketAddr>>>(
    before: SetState<C, W, S>,
    tx: UnboundedSender<Update>,
    values: V,
    after: SetState<C, W, S>,
) -> bool {
    &&& after.addrs == before.addrs
    &&& after.query == before.query
    &&& after.txs.len() == before.txs.len() + 1
    &&& forall|j: int| 0 <= j < before.txs.len() ==> #[trigger] after.txs[j] == before.txs[j]
    &&& match before.addrs {
        Exists::Yes(cache) => was_greeted(tx, cache, values, after.txs.last()),
        _ => after.txs.last() == tx,
    }
}

/// Joining joins.
pub(crate) proof fn lemma_was_joined<C, W, S, V: Fn(&C) -> Vec<Labeled<SocketAddr>>>(
    before: SetState<C, W, S>,
    tx: UnboundedSender<Update>,
    values: V,
    after: SetState<C, W, S>,
)
    requires
        joined(before, tx, values, after),
    ensures
        was_joined(before, tx, values, after),
        same_channel(after.txs.last(), tx),
{
    if let Exists::Yes(cache) = before.addrs {
        let (known, joining) = choose|
            known: Seq<Labeled<SocketAddr>>,
            joining: UnboundedSender<Update>,
        |
            {
                &&& #[trigger] holds(values, cache, known)
                &&& #[trigger] greeted(tx, known, joining)
                &&& after.txs == before.txs.push(joining)
            };
        let (c, list) = choose|c: &C, list: Vec<Labeled<SocketAddr>>|
            #![trigger call_ensures(values, (c,), list)]
            *c == cache && call_ensures(values, (c,), list) && list@ == known;
        let entries = known.map_values(
            |addr: Labeled<SocketAddr>| (Update::Insert(addr), true),
        );
        assert(posted(joining) == posted(tx) + entries);
        assert forall|k: int| 0 <= k < list@.len() implies posted(joining)[posted(tx).len() + k]
            == (Update::Insert(#[trigger] list@[k]), true) by {
            assert(entries[k] == (Update::Insert(known[k]), true));
        }
        assert(call_ensures(values, (c,), list));
        assert(after.txs.last() == joining);
    }
}

/// A watch that joins is served from then on, and caught up; one is turned away only where it
/// refused an endpoint that is known, and then nothing changes.
pub proof fn law_watch_joins<C, W, S, V: Fn(&C) -> Vec<Labeled<SocketAddr>>>(
    tx: UnboundedSender<Update>,
    values: &V,
)
    ensures
        forall|set: &mut DestinationSet<C, W, S>, r: Result<(), WatchGone>|
            #[trigger] call_ensures(
                DestinationSet::<C, W, S>::join::<V>,
                (set, tx, values),
                r,
            ) ==> match r {
                Ok(_) => was_joined((*set)@, tx, *values, (*final(set))@),
                Err(_) => was_turned_away((*set)@, tx, *values) && (*final(set))@ == (*set)@,
            },
{
    assert forall|set: &mut DestinationSet<C, W, S>, r: Result<(), WatchGone>|
        #[trigger] call_ensures(
            DestinationSet::<C, W, S>::join::<V>,
            (set, tx, values),
            r,
        ) implies match r {
        Ok(_) => was_joined((*set)@, tx, *values, (*final(set))@),
        Err(_) => was_turned_away((*set)@, tx, *values) && (*final(set))@ == (*set)@,
    } by {
        if r is Ok {
            lemma_was_joined((*set)@, tx, *values, (*final(set))@);
        } else {
            lemma_was_turned_away((*set)@, tx, *values);
        }
    }
}

/// Whether a watch refused an endpoint that a cache was listed to hold.
pub open spec fn was_turned_away<C, W, S, V: Fn(&C) -> Vec<Labeled<SocketAddr>>>(
    before: SetState<C, W, S>,
    tx: UnboundedSender<Update>,
    values: V,
) -> bool {
    &&& before.addrs is Yes
    &&& exists|c: &C, list: Vec<Labeled<SocketAddr>>|
        {
            &&& #[trigger] call_ensures(values, (c,), list)
            &&& *c == before.addrs->Yes_0
            &&& refused(tx, Seq::new(list@.len(), |k: int| Update::Insert(list@[k])))
        }
}

/// Who is gone was turned away.
pub(crate) proof fn lemma_was_turned_away<C, W, S, V: Fn(&C) -> Vec<Labeled<SocketAddr>>>(
    before: SetState<C, W, S>,
    tx: UnboundedSender<Update>,
    values: V,
)
    requires
        gone(before, tx, values),
    ensures
        was_turned_away(before, tx, values),
{
    let cache = before.addrs->Yes_0;
    let taken = |update: Update| (update, true);
    let (known, n, mid, leaving) = choose|
        known: Seq<Labeled<SocketAddr>>,
        n: int,
        mid: UnboundedSender<Update>,
        leaving: UnboundedSender<Update>,
    |
        {
            &&& #[trigger] holds(values, cache, known)
            &&& 0 <= n < known.len()
            &&& #[trigger] greeted(tx, known.take(n), mid)
            &&& #[trigger] attempted(mid, Update::Insert(known[n]), leaving)
            &&& !taken_last(leaving)
        };
    let (c, list) = choose|c: &C, list: Vec<Labeled<SocketAddr>>|
        #![trigger call_ensures(values, (c,), list)]
        *c == cache && call_ensures(values, (c,), list) && list@ == known;
    let updates = Seq::new(list@.len(), |k: int| Update::Insert(list@[k]));
    assert(known.take(n).map_values(|addr: Labeled<SocketAddr>| (Update::Insert(addr), true))
        =~= updates.take(n).map_values(taken));
    assert(posted(leaving) =~= posted(tx) + updates.take(n).map_values(taken).push(
        (updates[n], false),
    ));
    assert(refused_at(tx, updates, n, leaving));
    assert(call_ensures(values, (c,), list));
}

/// Octets that spell the same number are the same.
proof fn lemma_spelled_is_unique(a: Seq<u8>, b: Seq<u8>, k: int)
    requires
        spelled(a, k) == spelled(b, k),
    ensures
        a[k] == b[k],
        a[k + 1] == b[k + 1],
        a[k + 2] == b[k + 2],
        a[k + 3] == b[k + 3],
{
}

/// A message names one address.
pub proof fn law_message_names_one_address(pb: TcpAddress, a: SocketAddr, b: SocketAddr)
    requires
        is_address_of(a, pb),
        is_address_of(b, pb),
    ensures
        a == b,
{
    match (a.ip, b.ip) {
        (IpAddr::V4(x), IpAddr::V4(y)) => {
            lemma_spelled_is_unique(x@, y@, 0);
            assert(x@ =~= y@);
            assert(x =~= y);
        },
        (IpAddr::V6(x), IpAddr::V6(y)) => {
            assert(spelled(x@, 0) == spelled(y@, 0));
            assert(spelled(x@, 8) == spelled(y@, 8));
            lemma_spelled_is_unique(x@, y@, 0);
            lemma_spelled_is_unique(x@, y@, 4);
            lemma_spelled_is_unique(x@, y@, 8);
            lemma_spelled_is_unique(x@, y@, 12);
            assert(x@ =~= y@);
            assert(x =~= y);
        },
        _ => {},
    }
}

/// Whether the caller's cache does what it is asked: with `contents` for the addresses in it, those
/// that it is to take in are in it afterwards, and those that it is to give up are not.
pub open spec fn does_as_asked<C, F: Fn(CacheOp<C>) -> CacheReply<C>>(
    run: F,
    contents: spec_fn(C) -> Set<SocketAddr>,
) -> bool {
    &&& forall|cache: C, list: Vec<Labeled<SocketAddr>>, reply: CacheReply<C>, k: int|
        #![trigger call_ensures(run, (CacheOp::Extend(cache, list),), reply), list@[k]]
        call_ensures(run, (CacheOp::Extend(cache, list),), reply) && 0 <= k < list@.len()
            ==> contents(reply.cache).contains(list@[k].inner)
    &&& forall|cache: C, list: Vec<SocketAddr>, reply: CacheReply<C>, k: int|
        #![trigger call_ensures(run, (CacheOp::Remove(cache, list),), reply), list@[k]]
        call_ensures(run, (CacheOp::Remove(cache, list),), reply) && 0 <= k < list@.len()
            ==> !contents(reply.cache).contains(list@[k])
    &&& forall|reply: CacheReply<C>| #[trigger]
        call_ensures(run, (CacheOp::New,), reply) ==> contents(reply.cache) == Set::<
            SocketAddr,
        >::empty()
}

/// What the filter keeps of a sequence includes each element that fits, at some place.
proof fn lemma_kept<A>(all: Seq<A>, fits: spec_fn(A) -> bool, i: int) -> (k: int)
    requires
        0 <= i < all.len(),
        fits(all[i]),
    ensures
        0 <= k < all.filter(fits).len(),
        all.filter(fits)[k] == all[i],
{
    all.lemma_filter_contains(fits, i);
    choose|k: int| 0 <= k < all.filter(fits).len() && all.filter(fits)[k] == all[i]
}

/// Each endpoint that an addition names is known afterwards, whatever was known before.
pub proof fn law_added_endpoint_is_known<C, W, S, F: Fn(CacheOp<C>) -> CacheReply<C>>(
    before: SetState<C, W, S>,
    set: WeightedAddrSet,
    run: F,
    after: SetState<C, W, S>,
    contents: spec_fn(C) -> Set<SocketAddr>,
    i: int,
    addr: SocketAddr,
)
    requires
        applied(before, PbUpdate { update: Some(PbUpdate2::Add(set)) }, run, after),
        does_as_asked(run, contents),
        0 <= i < set.addrs@.len(),
        set.addrs@[i].addr is Some,
        is_address_of(addr, set.addrs@[i].addr->0),
    ensures
        after.addrs is Yes,
        contents(after.addrs->Yes_0).contains(addr),
{
    let update = PbUpdate { update: Some(PbUpdate2::Add(set)) };
    law_update_is_taken_up(before, update, run, after);
    let list = choose|list: Seq<Labeled<SocketAddr>>| #[trigger]
        are_endpoints_of(list, set.addrs@, set.metric_labels) && was_extended(
            before,
            list,
            run,
            after,
        );
    let named = |pb: WeightedAddr| pb.addr is Some && names_ip(pb.addr->0);
    let k = lemma_kept(set.addrs@, named, i);
    assert(is_address_of(list[k].inner, set.addrs@.filter(named)[k].addr->0));
    law_message_names_one_address(set.addrs@[i].addr->0, addr, list[k].inner);
    let (cache, handed, reply) = choose|
        cache: C,
        handed: Vec<Labeled<SocketAddr>>,
        reply: CacheReply<C>,
    |
        {
            &&& #[trigger] call_ensures(run, (CacheOp::Extend(cache, handed),), reply)
            &&& before.addrs == Exists::Yes(cache) || !(before.addrs is Yes) && is_fresh(run, cache)
            &&& handed@.len() == list.len()
            &&& forall|k: int| 0 <= k < list.len() ==> handed@[k] == #[trigger] list[k]
            &&& after.addrs == Exists::Yes(reply.cache)
            &&& told(before.txs, reply.changes@, after.txs)
        };
    assert(handed@[k] == list[k]);
}

/// No address that a removal names is known afterwards, whatever was known before.
pub proof fn law_removed_address_is_not_known<C, W, S, F: Fn(CacheOp<C>) -> CacheReply<C>>(
    before: SetState<C, W, S>,
    set: AddrSet,
    run: F,
    after: SetState<C, W, S>,
    contents: spec_fn(C) -> Set<SocketAddr>,
    i: int,
    addr: SocketAddr,
)
    requires
        applied(before, PbUpdate { update: Some(PbUpdate2::Remove(set)) }, run, after),
        does_as_asked(run, contents),
        0 <= i < set.addrs@.len(),
        is_address_of(addr, set.addrs@[i]),
    ensures
        after.addrs is Yes,
        !contents(after.addrs->Yes_0).contains(addr),
{
    let update = PbUpdate { update: Some(PbUpdate2::Remove(set)) };
    law_update_is_taken_up(before, update, run, after);
    if before.addrs is Yes {
        let list = choose|list: Seq<SocketAddr>| #[trigger]
            are_addresses_of(list, set.addrs@) && was_reduced(before, list, run, after);
        let named = |pb: TcpAddress| names_ip(pb);
        let k = lemma_kept(set.addrs@, named, i);
        assert(is_address_of(list[k], set.addrs@.filter(named)[k]));
        law_message_names_one_address(set.addrs@[i], addr, list[k]);
        let (handed, reply) = choose|handed: Vec<SocketAddr>, reply: CacheReply<C>|
            {
                &&& #[trigger] call_ensures(
                    run,
                    (CacheOp::Remove(before.addrs->Yes_0, handed),),
                    reply,
                )
                &&& handed@.len() == list.len()
                &&& forall|k: int| 0 <= k < list.len() ==> handed@[k] == #[trigger] list[k]
                &&& after.addrs == Exists::Yes(reply.cache)
                &&& told(before.txs, reply.changes@, after.txs)
            };
        assert(handed@[k] == list[k]);
    }
}

/// After a message of no endpoints no address is known.
pub proof fn law_nothing_is_known_without_endpoints<C, W, S, F: Fn(CacheOp<C>) -> CacheReply<C>>(
    before: SetState<C, W, S>,
    none: NoEndpoints,
    run: F,
    after: SetState<C, W, S>,
    contents: spec_fn(C) -> Set<SocketAddr>,
)
    requires
        applied(before, PbUpdate { update: Some(PbUpdate2::NoEndpoints(none)) }, run, after),
        does_as_asked(run, contents),
    ensures
        match after.addrs {
            Exists::Yes(cache) => none.exists && contents(cache) == Set::<SocketAddr>::empty(),
            Exists::No => !none.exists,
            Exists::Unknown => false,
        },
{
    let update = PbUpdate { update: Some(PbUpdate2::NoEndpoints(none)) };
    law_update_is_taken_up(before, update, run, after);
}

} // verus!
