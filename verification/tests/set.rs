use discovery::addr::{Ip, IpAddr, IpAddress, SocketAddr, TcpAddress};
use discovery::cache::{CacheChange, CacheOp, CacheReply, Exists};
use discovery::labels::{DstLabels, Labeled, Update};
use discovery::pb::{AddrSet, NoEndpoints, PbUpdate, PbUpdate2, WeightedAddr, WeightedAddrSet};
use discovery::query::{DestinationServiceQuery, RxError, RxPoll, UpdateRx};
use discovery::set::{
    labeled_addrs, on_change, on_changes, plain_addrs, DestinationSet, SetPoll, WatchGone,
};
use futures::sync::mpsc::{unbounded, UnboundedReceiver};
use futures::Stream;
use std::collections::HashMap;
use std::sync::Arc;

/// What a cache holds, and whether the next modification replaces it.
#[derive(Debug, PartialEq)]
struct Held(Vec<Labeled<SocketAddr>>, bool);

fn give_up(
    held: &mut Vec<Labeled<SocketAddr>>,
    changes: &mut Vec<(Labeled<SocketAddr>, CacheChange)>,
    leave: &dyn Fn(&Labeled<SocketAddr>) -> bool,
) {
    let (gone, kept) = held.drain(..).partition(|value| leave(value));
    *held = kept;
    let gone: Vec<Labeled<SocketAddr>> = gone;
    changes.extend(gone.into_iter().map(|value| (value, CacheChange::Removal)));
}

fn run(op: CacheOp<Held>) -> CacheReply<Held> {
    let mut changes = Vec::new();
    let cache = match op {
        CacheOp::New => Held(Vec::new(), false),
        CacheOp::Extend(Held(mut held, reset), addrs) => {
            if reset {
                give_up(&mut held, &mut changes, &|value| !addrs.contains(value));
            }
            for addr in addrs {
                if !held.contains(&addr) {
                    changes.push((addr.clone(), CacheChange::Insertion));
                    held.push(addr);
                }
            }
            Held(held, false)
        }
        CacheOp::Remove(Held(mut held, _), addrs) => {
            give_up(&mut held, &mut changes, &|value| addrs.contains(&value.inner));
            Held(held, false)
        }
        CacheOp::Clear(Held(mut held, _)) => {
            give_up(&mut held, &mut changes, &|_| true);
            Held(held, false)
        }
        CacheOp::SetResetOnNextModification(Held(held, _)) => Held(held, true),
    };
    CacheReply { cache, changes }
}

fn values(cache: &Held) -> Vec<Labeled<SocketAddr>> {
    cache.0.clone()
}

fn addr(port: u16) -> SocketAddr {
    SocketAddr { ip: IpAddr::V4([10, 0, 0, 1]), port }
}

fn labels(pairs: &[(&str, &str)]) -> HashMap<String, String> {
    pairs.iter().map(|(k, v)| (k.to_string(), v.to_string())).collect()
}

fn labeled(port: u16) -> Labeled<SocketAddr> {
    let metric_labels = DstLabels { set: Arc::new(labels(&[])), addr: Arc::new(labels(&[])) };
    Labeled { metric_labels, inner: addr(port) }
}

fn insert(port: u16) -> Update {
    Update::Insert(labeled(port))
}

fn remove(port: u16) -> Update {
    Update::Remove(labeled(port))
}

fn tcp(port: u32) -> TcpAddress {
    TcpAddress { ip: Some(IpAddress { ip: Some(Ip::Ipv4(0x0a00_0001)) }), port }
}

fn weighted(addr: Option<TcpAddress>) -> WeightedAddr {
    WeightedAddr { addr, weight: 1, metric_labels: labels(&[]) }
}

type Watched = DestinationSet<Held, &'static str, u8>;

/// A set with this many watches.
fn watched(addrs: Exists<Held>, n: usize) -> (Watched, Vec<UnboundedReceiver<Update>>) {
    let (txs, rxs) = (0..n).map(|_| unbounded()).unzip();
    (DestinationSet { addrs, query: None, txs }, rxs)
}

/// All that a watch was told, once its sender is gone.
fn told(rx: UnboundedReceiver<Update>) -> Vec<Update> {
    rx.wait().map(|update| update.unwrap()).collect()
}

fn holds(set: &Watched, ports: &[u16]) -> bool {
    match &set.addrs {
        Exists::Yes(cache) => {
            let held: Vec<u16> = cache.0.iter().map(|value| value.inner.port).collect();
            held == ports
        }
        Exists::No | Exists::Unknown => false,
    }
}

#[test]
fn every_watch_is_told_of_a_change() {
    let (mut set, mut rxs) = watched(Exists::Unknown, 2);
    on_change(&mut set.txs, labeled(1), CacheChange::Insertion);
    on_change(&mut set.txs, labeled(1), CacheChange::Removal);
    assert_eq!(set.txs.len(), 2);
    drop(set);
    assert_eq!(told(rxs.remove(0)), vec![insert(1), remove(1)]);
    assert_eq!(told(rxs.remove(0)), vec![insert(1), remove(1)]);
}

#[test]
fn dead_watches_are_dropped_and_the_others_stay_in_order() {
    let (mut set, mut rxs) = watched(Exists::Unknown, 4);
    drop(rxs.remove(2));
    drop(rxs.remove(0));
    on_change(&mut set.txs, labeled(1), CacheChange::Insertion);
    assert_eq!(set.txs.len(), 2);
    set.txs[0].unbounded_send(insert(7)).unwrap();
    set.txs[1].unbounded_send(insert(8)).unwrap();
    drop(set);
    assert_eq!(told(rxs.remove(0)), vec![insert(1), insert(7)]);
    assert_eq!(told(rxs.remove(0)), vec![insert(1), insert(8)]);
}

#[test]
fn changes_are_told_one_after_the_other() {
    let (mut set, mut rxs) = watched(Exists::Unknown, 1);
    let changes = vec![
        (labeled(1), CacheChange::Insertion),
        (labeled(2), CacheChange::Insertion),
        (labeled(1), CacheChange::Removal),
    ];
    on_changes(&mut set.txs, &changes);
    on_changes(&mut set.txs, &Vec::new());
    drop(set);
    assert_eq!(told(rxs.remove(0)), vec![insert(1), insert(2), remove(1)]);
}

#[test]
fn adding_makes_the_name_exist() {
    for addrs in vec![Exists::Unknown, Exists::No] {
        let (mut set, mut rxs) = watched(addrs, 1);
        set.add(vec![labeled(1), labeled(2)], &run);
        assert!(holds(&set, &[1, 2]));
        set.add(vec![labeled(2), labeled(3)], &run);
        assert!(holds(&set, &[1, 2, 3]));
        drop(set);
        assert_eq!(told(rxs.remove(0)), vec![insert(1), insert(2), insert(3)]);
    }
}

#[test]
fn removing_tells_what_went() {
    let (mut set, mut rxs) = watched(Exists::Yes(Held(vec![labeled(1), labeled(2)], false)), 1);
    set.remove(vec![addr(2), addr(9)], &run);
    assert!(holds(&set, &[1]));
    drop(set);
    assert_eq!(told(rxs.remove(0)), vec![remove(2)]);
}

#[test]
fn removing_from_an_unknown_name_makes_it_exist() {
    for addrs in vec![Exists::Unknown, Exists::No] {
        let (mut set, mut rxs) = watched(addrs, 1);
        set.remove(vec![addr(1)], &run);
        assert!(holds(&set, &[]));
        drop(set);
        assert_eq!(told(rxs.remove(0)), vec![]);
    }
}

#[test]
fn no_endpoints_tells_that_all_went() {
    let held = || Exists::Yes(Held(vec![labeled(1), labeled(2)], true));
    let (mut set, mut rxs) = watched(held(), 1);
    set.no_endpoints(true, &run);
    assert!(matches!(&set.addrs, Exists::Yes(cache) if *cache == Held(Vec::new(), false)));
    drop(set);
    assert_eq!(told(rxs.remove(0)), vec![remove(1), remove(2)]);

    let (mut set, mut rxs) = watched(held(), 1);
    set.no_endpoints(false, &run);
    assert!(matches!(set.addrs, Exists::No));
    drop(set);
    assert_eq!(told(rxs.remove(0)), vec![remove(1), remove(2)]);
}

#[test]
fn no_endpoints_of_an_unknown_name_tells_nothing() {
    let (mut set, mut rxs) = watched(Exists::Unknown, 1);
    set.no_endpoints(true, &run);
    assert!(holds(&set, &[]));
    set.addrs = Exists::Unknown;
    set.no_endpoints(false, &run);
    assert!(matches!(set.addrs, Exists::No));
    drop(set);
    assert_eq!(told(rxs.remove(0)), vec![]);
}

#[test]
fn emptying_twice_is_emptying_once() {
    for (first, second) in vec![(true, true), (true, false), (false, true), (false, false)] {
        let held = Exists::Yes(Held(vec![labeled(1), labeled(2)], false));
        let (mut set, mut rxs) = watched(held, 2);
        set.no_endpoints(first, &run);
        drop(rxs.remove(1));
        set.no_endpoints(second, &run);
        assert_eq!(set.txs.len(), 2);
        if second {
            assert!(holds(&set, &[]));
        } else {
            assert!(matches!(set.addrs, Exists::No));
        }
        drop(set);
        assert_eq!(told(rxs.remove(0)), vec![remove(1), remove(2)]);
    }
}

#[test]
fn reset_replaces_what_was_known() {
    let (mut set, mut rxs) = watched(Exists::Yes(Held(vec![labeled(1), labeled(2)], false)), 1);
    set.reset_on_next_modification(&run);
    assert!(holds(&set, &[1, 2]));
    set.add(vec![labeled(2), labeled(3)], &run);
    assert!(holds(&set, &[2, 3]));
    drop(set);
    assert_eq!(told(rxs.remove(0)), vec![remove(1), insert(3)]);
}

#[test]
fn reset_of_an_unknown_name_changes_nothing() {
    let (mut set, _rxs) = watched(Exists::Unknown, 1);
    set.reset_on_next_modification(&run);
    assert!(matches!(set.addrs, Exists::Unknown));
    set.addrs = Exists::No;
    set.reset_on_next_modification(&run);
    assert!(matches!(set.addrs, Exists::No));
}

#[test]
fn taking_leaves_unknown_behind() {
    let mut exists = Exists::Yes(5);
    assert!(matches!(exists.take(), Exists::Yes(5)));
    assert!(matches!(exists, Exists::Unknown));
}

#[test]
fn new_watch_is_told_what_is_known() {
    let (mut set, mut rxs) = watched(Exists::Yes(Held(vec![labeled(1), labeled(2)], false)), 1);
    let (tx, rx) = unbounded();
    assert_eq!(set.join(tx, &values), Ok(()));
    assert_eq!(set.txs.len(), 2);
    set.add(vec![labeled(3)], &run);
    drop(set);
    assert_eq!(told(rxs.remove(0)), vec![insert(3)]);
    assert_eq!(told(rx), vec![insert(1), insert(2), insert(3)]);
}

#[test]
fn new_watch_of_an_unknown_name_is_told_nothing_yet() {
    for addrs in vec![Exists::Unknown, Exists::No] {
        let (mut set, _rxs) = watched(addrs, 0);
        let (tx, rx) = unbounded();
        assert_eq!(set.join(tx, &values), Ok(()));
        assert_eq!(set.txs.len(), 1);
        drop(set);
        assert_eq!(told(rx), vec![]);
    }
}

#[test]
fn watch_that_is_gone_does_not_join() {
    let (mut set, _rxs) = watched(Exists::Yes(Held(vec![labeled(1)], false)), 1);
    let (tx, rx) = unbounded();
    drop(rx);
    assert_eq!(set.join(tx, &values), Err(WatchGone {}));
    assert_eq!(set.txs.len(), 1);
    assert!(holds(&set, &[1]));
}

#[test]
fn watch_that_is_gone_joins_where_there_is_nothing_to_tell() {
    let (mut set, _rxs) = watched(Exists::Unknown, 0);
    let (tx, rx) = unbounded();
    drop(rx);
    assert_eq!(set.join(tx, &values), Ok(()));
    assert_eq!(set.txs.len(), 1);
}

#[test]
fn endpoints_without_address_are_passed_over() {
    let shared = labels(&[("service", "web")]);
    let empty = TcpAddress { ip: Some(IpAddress { ip: None }), port: 2 };
    let addrs = vec![
        weighted(Some(tcp(1))),
        weighted(None),
        weighted(Some(empty)),
        weighted(Some(tcp(65_536 + 3))),
    ];
    let found = labeled_addrs(WeightedAddrSet { addrs, metric_labels: shared.clone() });
    assert_eq!(found.len(), 2);
    assert_eq!(found[0].inner, addr(1));
    assert_eq!(found[1].inner, addr(3));
    assert_eq!(*found[0].metric_labels.set, shared);
    assert_eq!(*found[1].metric_labels.set, shared);

    let addrs = vec![tcp(1), TcpAddress { ip: None, port: 2 }, tcp(3)];
    assert_eq!(plain_addrs(&AddrSet { addrs }), vec![addr(1), addr(3)]);
}

#[test]
fn updates_are_applied_and_the_stream_is_polled_again() {
    let (mut set, mut rxs) = watched(Exists::Unknown, 1);
    let add = PbUpdate2::Add(WeightedAddrSet {
        addrs: vec![weighted(Some(tcp(1))), weighted(Some(tcp(2)))],
        metric_labels: labels(&[]),
    });
    let updates = vec![
        Some(add),
        None,
        Some(PbUpdate2::Remove(AddrSet { addrs: vec![tcp(1)] })),
        Some(PbUpdate2::NoEndpoints(NoEndpoints { exists: false })),
    ];
    for update in updates {
        let polled = RxPoll::Ready(UpdateRx::Streaming(7), PbUpdate { update });
        let next = set.poll_destination(polled, &run);
        assert!(matches!(next, SetPoll::Poll(UpdateRx::Streaming(7))));
    }
    assert!(matches!(set.addrs, Exists::No));
    drop(set);
    assert_eq!(told(rxs.remove(0)), vec![insert(1), insert(2), remove(1), remove(2)]);
}

#[test]
fn stream_that_ended_or_failed_needs_reconnect() {
    let (mut set, _rxs) = watched(Exists::Unknown, 1);
    for polled in vec![
        RxPoll::Ended,
        RxPoll::Failed(RxError::Future),
        RxPoll::Failed(RxError::Stream),
    ] {
        assert!(matches!(
            set.poll_destination(polled, &run),
            SetPoll::Return(DestinationServiceQuery::NeedsReconnect)
        ));
    }
}

#[test]
fn stream_that_has_nothing_is_kept() {
    let (mut set, _rxs) = watched(Exists::Unknown, 1);
    assert!(matches!(
        set.poll_destination(RxPoll::NotReady(UpdateRx::Waiting("w")), &run),
        SetPoll::Return(DestinationServiceQuery::ConnectedOrConnecting {
            rx: UpdateRx::Waiting("w")
        })
    ));
    assert!(matches!(
        set.poll_destination(RxPoll::Again(UpdateRx::Streaming(7)), &run),
        SetPoll::Poll(UpdateRx::Streaming(7))
    ));
}
