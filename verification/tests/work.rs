use discovery::addr::{Ip, IpAddress, SocketAddr, TcpAddress};
use discovery::authority::DnsNameAndPort;
use discovery::cache::{CacheChange, CacheOp, CacheReply};
use discovery::labels::{Labeled, Update};
use discovery::pb::{AddrSet, NoEndpoints, PbUpdate, PbUpdate2, WeightedAddr, WeightedAddrSet};
use discovery::query::{RxEvent, UpdateRx};
use discovery::set::WatchGone;
use discovery::watch::{new, Async, Change, Discovery, Watch};
use discovery::work::{Action, DiscoveryWork, Event, Readiness, WatchPoll};
use futures::sync::mpsc::unbounded;
use futures::Stream;
use std::collections::{BTreeSet, HashMap};

/// What a cache holds, and whether the next modification replaces it.
#[derive(Debug)]
struct Held(Vec<Labeled<SocketAddr>>, bool);

fn run(op: CacheOp<Held>) -> CacheReply<Held> {
    let mut changes = Vec::new();
    let cache = match op {
        CacheOp::New => Held(Vec::new(), false),
        CacheOp::Extend(Held(mut held, reset), addrs) => {
            if reset {
                for value in held.iter().filter(|value| !addrs.contains(value)) {
                    changes.push((value.clone(), CacheChange::Removal));
                }
                held.retain(|value| addrs.contains(value));
            }
            for addr in addrs {
                if !held.contains(&addr) {
                    changes.push((addr.clone(), CacheChange::Insertion));
                    held.push(addr);
                }
            }
            Held(held, false)
        }
        CacheOp::Remove(Held(mut held, _), addrs) => {
            for value in held.iter().filter(|value| addrs.contains(&value.inner)) {
                changes.push((value.clone(), CacheChange::Removal));
            }
            held.retain(|value| !addrs.contains(&value.inner));
            Held(held, false)
        }
        CacheOp::Clear(Held(held, _)) => {
            changes.extend(held.into_iter().map(|value| (value, CacheChange::Removal)));
            Held(Vec::new(), false)
        }
        CacheOp::SetResetOnNextModification(Held(held, _)) => Held(held, true),
    };
    CacheReply { cache, changes }
}

fn values(cache: &Held) -> Vec<Labeled<SocketAddr>> {
    cache.0.clone()
}

/// Names with a dot belong to no namespace, and cannot be queried.
fn normalize(authority: &DnsNameAndPort, namespace: &str) -> Option<String> {
    if authority.host.contains('.') {
        None
    } else {
        Some(format!("{}.{}.svc:{}", authority.host, namespace, authority.port))
    }
}

type Work = DiscoveryWork<Held, &'static str, u8>;
type Next = Action<&'static str, u8>;

fn bind(addr: &SocketAddr) -> Result<u16, ()> {
    Ok(addr.port)
}

type Bound = fn(&SocketAddr) -> Result<u16, ()>;

fn step(work: &mut Work, event: Event<&'static str, u8>) -> Next {
    try_step(work, event).unwrap()
}

fn try_step(work: &mut Work, event: Event<&'static str, u8>) -> Result<Next, WatchGone> {
    assert!(work.is_expecting(&event));
    work.poll_rpc(event, &run, &values, &normalize)
}

fn authority(host: &str) -> DnsNameAndPort {
    DnsNameAndPort { host: host.to_string(), port: 80 }
}

fn begin() -> (Discovery, Work) {
    let (discovery, background) = new("prod".to_string());
    (discovery, background.work())
}

/// The request that is waiting for the work.
fn request(work: &mut Work) -> Event<&'static str, u8> {
    let (name, tx) = work.requests().by_ref().wait().next().unwrap().unwrap();
    Event::Watch(WatchPoll::Request(name, tx))
}

/// Starts to watch a name, and lets the work take up the request.
fn watch(discovery: &mut Discovery, work: &mut Work, host: &str) -> (Watch<Bound>, Next) {
    let watch = discovery.resolve(&authority(host), bind as Bound).unwrap();
    let event = request(work);
    let next = step(work, event);
    (watch, next)
}

fn ready() -> Event<&'static str, u8> {
    Event::Ready(Readiness::Ready)
}

fn no_watch() -> Event<&'static str, u8> {
    Event::Watch(WatchPoll::NotReady)
}

fn tcp(port: u32) -> TcpAddress {
    TcpAddress { ip: Some(IpAddress { ip: Some(Ip::Ipv4(0x0a00_0001)) }), port }
}

fn item(stream: u8, update: PbUpdate2) -> Event<&'static str, u8> {
    Event::Polled(RxEvent::Item(stream, PbUpdate { update: Some(update) }))
}

fn add(ports: &[u32]) -> PbUpdate2 {
    let addrs = ports
        .iter()
        .map(|port| WeightedAddr {
            addr: Some(tcp(*port)),
            weight: 1,
            metric_labels: HashMap::new(),
        })
        .collect();
    PbUpdate2::Add(WeightedAddrSet { addrs, metric_labels: HashMap::new() })
}

fn remove(ports: &[u32]) -> PbUpdate2 {
    PbUpdate2::Remove(AddrSet { addrs: ports.iter().map(|port| tcp(*port)).collect() })
}

/// The next updates of a watch: the port, and whether it came.
fn told(watch: &mut Watch<Bound>, n: usize) -> Vec<(u16, bool)> {
    let updates: Vec<Update> = watch.rx.by_ref().wait().take(n).map(|u| u.unwrap()).collect();
    updates
        .into_iter()
        .map(|update| match watch.poll(Ok(Async::Ready(Some(update)))).unwrap() {
            Async::Ready(Change::Insert(addr, service)) => {
                assert!(service.labels.is_some());
                assert_eq!(service.inner, addr.port);
                (addr.port, true)
            }
            Async::Ready(Change::Remove(addr)) => (addr.port, false),
            Async::NotReady => unreachable!(),
        })
        .collect()
}

fn is_get(next: Next, expected: &str) -> bool {
    match next {
        Action::Get(request) => request.scheme == "k8s" && request.path == expected,
        _ => false,
    }
}

/// Work that streams updates for `web` from the stream 7, and waits for what comes of polling it.
fn streaming() -> (Discovery, Work, Watch<Bound>) {
    let (mut discovery, mut work) = begin();
    step(&mut work, Event::Start);
    step(&mut work, ready());
    let (watch, next) = watch(&mut discovery, &mut work, "web");
    assert!(is_get(next, "web.prod.svc:80"));
    assert!(matches!(step(&mut work, Event::Response("w")), Action::PollReady));
    assert!(matches!(step(&mut work, ready()), Action::PollWatches));
    assert!(matches!(step(&mut work, no_watch()), Action::Poll(UpdateRx::Waiting("w"))));
    assert!(matches!(
        step(&mut work, Event::Polled(RxEvent::Response(7))),
        Action::Poll(UpdateRx::Streaming(7))
    ));
    (discovery, work, watch)
}

#[test]
fn work_waits_for_what_it_asked_for() {
    let (_discovery, mut work) = begin();
    assert!(work.is_expecting(&Event::Start));
    assert!(!work.is_expecting(&ready()));
    assert!(matches!(step(&mut work, Event::Start), Action::PollReady));
    assert!(work.is_expecting(&ready()));
    assert!(!work.is_expecting(&Event::Start));
    assert!(matches!(step(&mut work, ready()), Action::PollWatches));
    assert!(work.is_expecting(&no_watch()));
    assert!(!work.is_expecting(&Event::Response("w")));
    assert!(!work.is_expecting(&Event::Polled(RxEvent::StreamEnded)));
    assert!(matches!(step(&mut work, no_watch()), Action::Done));
    assert!(work.is_expecting(&Event::Start));
}

#[test]
fn subject_is_the_name_that_the_work_is_at() {
    let (mut discovery, mut work) = begin();
    assert!(work.subject().is_none());
    step(&mut work, Event::Start);
    step(&mut work, ready());
    assert!(work.subject().is_none());
    let (_watch, _) = watch(&mut discovery, &mut work, "web");
    assert_eq!(work.subject().unwrap().host, "web");
    step(&mut work, Event::Response("w"));
    assert!(work.subject().is_none());
    step(&mut work, ready());
    step(&mut work, no_watch());
    assert_eq!(work.subject().unwrap().host, "web");
    step(&mut work, Event::Polled(RxEvent::ResponseFailed));
    assert!(work.subject().is_none());
    step(&mut work, ready());
    assert_eq!(work.subject().unwrap().host, "web");
    assert_eq!(work.subject().unwrap().port, 80);
}

#[test]
fn work_is_done_when_the_service_is_not_ready() {
    for readiness in vec![Readiness::NotReady, Readiness::Failed] {
        let (_discovery, mut work) = begin();
        step(&mut work, Event::Start);
        assert!(matches!(step(&mut work, Event::Ready(readiness)), Action::Done));
    }
}

#[test]
fn work_goes_on_when_no_more_watches_can_come() {
    let (discovery, mut work, _watch) = streaming();
    drop(discovery);
    let next = step(&mut work, Event::Polled(RxEvent::StreamNotReady(7)));
    assert!(matches!(next, Action::Done));
    step(&mut work, Event::Start);
    step(&mut work, ready());
    let next = step(&mut work, Event::Watch(WatchPoll::Closed));
    assert!(matches!(next, Action::Poll(UpdateRx::Streaming(7))));
}

#[test]
fn updates_reach_the_watch() {
    let (_discovery, mut work, mut watch) = streaming();
    let next = step(&mut work, item(7, add(&[1, 2])));
    assert!(matches!(next, Action::Poll(UpdateRx::Streaming(7))));
    step(&mut work, item(7, remove(&[1])));
    step(&mut work, item(7, PbUpdate2::NoEndpoints(NoEndpoints { exists: true })));
    step(&mut work, item(7, add(&[3])));
    let next = step(&mut work, Event::Polled(RxEvent::StreamNotReady(7)));
    assert!(matches!(next, Action::Done));
    assert_eq!(
        told(&mut watch, 5),
        vec![(1, true), (2, true), (1, false), (2, false), (3, true)]
    );
}

#[test]
fn second_watch_of_a_name_catches_up_without_a_query() {
    let (mut discovery, mut work, mut first) = streaming();
    step(&mut work, item(7, add(&[1, 2])));
    step(&mut work, Event::Polled(RxEvent::StreamNotReady(7)));
    step(&mut work, Event::Start);
    step(&mut work, ready());
    let (mut second, next) = watch(&mut discovery, &mut work, "web");
    assert!(matches!(next, Action::PollReady));
    step(&mut work, ready());
    let next = step(&mut work, no_watch());
    assert!(matches!(next, Action::Poll(UpdateRx::Streaming(7))));
    step(&mut work, item(7, remove(&[2])));
    assert_eq!(told(&mut first, 3), vec![(1, true), (2, true), (2, false)]);
    assert_eq!(told(&mut second, 3), vec![(1, true), (2, true), (2, false)]);
}

#[test]
fn watch_that_is_gone_is_reported() {
    let (mut discovery, mut work, _watch) = streaming();
    step(&mut work, item(7, add(&[1])));
    step(&mut work, Event::Polled(RxEvent::StreamNotReady(7)));
    step(&mut work, Event::Start);
    step(&mut work, ready());
    drop(discovery.resolve(&authority("web"), bind as Bound).unwrap());
    let event = request(&mut work);
    assert_eq!(try_step(&mut work, event).err(), Some(WatchGone {}));
    assert!(work.is_expecting(&ready()));
}

#[test]
fn watch_that_left_does_not_disturb_the_others() {
    let (mut discovery, mut work, first) = streaming();
    step(&mut work, Event::Polled(RxEvent::StreamNotReady(7)));
    step(&mut work, Event::Start);
    step(&mut work, ready());
    let (mut second, _) = watch(&mut discovery, &mut work, "web");
    drop(first);
    step(&mut work, ready());
    step(&mut work, no_watch());
    step(&mut work, item(7, add(&[1])));
    step(&mut work, item(7, add(&[2])));
    assert_eq!(told(&mut second, 2), vec![(1, true), (2, true)]);
}

#[test]
fn lost_stream_is_reconnected_before_new_watches() {
    for lost in vec![RxEvent::StreamEnded, RxEvent::StreamFailed] {
        let (mut discovery, mut work, mut first) = streaming();
        step(&mut work, item(7, add(&[1, 2])));
        assert!(matches!(step(&mut work, Event::Polled(lost)), Action::PollReady));
        let _other = discovery.resolve(&authority("api"), bind as Bound).unwrap();
        assert!(is_get(step(&mut work, ready()), "web.prod.svc:80"));
        assert!(matches!(step(&mut work, Event::Response("again")), Action::PollReady));
        assert!(matches!(step(&mut work, ready()), Action::PollWatches));
        let event = request(&mut work);
        assert!(is_get(step(&mut work, event), "api.prod.svc:80"));
        step(&mut work, Event::Response("api"));
        step(&mut work, ready());
        let next = step(&mut work, no_watch());
        assert!(matches!(next, Action::Poll(UpdateRx::Waiting("again"))));
        step(&mut work, Event::Polled(RxEvent::Response(8)));
        step(&mut work, item(8, add(&[2, 3])));
        let next = step(&mut work, Event::Polled(RxEvent::StreamNotReady(8)));
        assert!(matches!(next, Action::Poll(UpdateRx::Waiting("api"))));
        assert_eq!(told(&mut first, 4), vec![(1, true), (2, true), (1, false), (3, true)]);
    }
}

#[test]
fn failed_response_is_reconnected() {
    let (mut discovery, mut work) = begin();
    step(&mut work, Event::Start);
    step(&mut work, ready());
    let (_watch, _) = watch(&mut discovery, &mut work, "web");
    step(&mut work, Event::Response("w"));
    step(&mut work, ready());
    step(&mut work, no_watch());
    let next = step(&mut work, Event::Polled(RxEvent::ResponseFailed));
    assert!(matches!(next, Action::PollReady));
    assert!(is_get(step(&mut work, ready()), "web.prod.svc:80"));
}

#[test]
fn lost_stream_waits_until_the_service_is_ready() {
    let (_discovery, mut work, _watch) = streaming();
    step(&mut work, Event::Polled(RxEvent::StreamNotReady(7)));
    step(&mut work, Event::Start);
    let next = step(&mut work, Event::Ready(Readiness::NotReady));
    assert!(matches!(next, Action::Poll(UpdateRx::Streaming(7))));
    assert!(matches!(step(&mut work, Event::Polled(RxEvent::StreamEnded)), Action::Done));
    step(&mut work, Event::Start);
    let next = step(&mut work, Event::Ready(Readiness::NotReady));
    assert!(matches!(next, Action::Done));
    step(&mut work, Event::Start);
    assert!(is_get(step(&mut work, ready()), "web.prod.svc:80"));
}

#[test]
fn lost_streams_are_reconnected_in_the_order_they_were_lost() {
    let (mut discovery, mut work, _web) = streaming();
    step(&mut work, Event::Polled(RxEvent::StreamNotReady(7)));
    step(&mut work, Event::Start);
    step(&mut work, ready());
    let (_api, _) = watch(&mut discovery, &mut work, "api");
    step(&mut work, Event::Response("api"));
    // The first round loses the second stream while the service is not ready.
    step(&mut work, Event::Ready(Readiness::NotReady));
    step(&mut work, Event::Polled(RxEvent::StreamNotReady(7)));
    let next = step(&mut work, Event::Polled(RxEvent::ResponseFailed));
    assert!(matches!(next, Action::Done));
    // The next round loses the first.
    step(&mut work, Event::Start);
    step(&mut work, Event::Ready(Readiness::NotReady));
    let next = step(&mut work, Event::Polled(RxEvent::StreamEnded));
    assert!(matches!(next, Action::Done));
    step(&mut work, Event::Start);
    assert!(is_get(step(&mut work, ready()), "api.prod.svc:80"));
    step(&mut work, Event::Response("api"));
    assert!(is_get(step(&mut work, ready()), "web.prod.svc:80"));
}

#[test]
fn name_that_cannot_be_normalized_is_never_queried() {
    let (mut discovery, mut work) = begin();
    step(&mut work, Event::Start);
    step(&mut work, ready());
    let (_first, next) = watch(&mut discovery, &mut work, "example.com");
    assert!(matches!(next, Action::PollReady));
    step(&mut work, ready());
    let (_second, next) = watch(&mut discovery, &mut work, "example.com");
    assert!(matches!(next, Action::PollReady));
    step(&mut work, ready());
    assert!(matches!(step(&mut work, no_watch()), Action::Done));
}

#[test]
fn name_that_can_no_longer_be_normalized_loses_its_query() {
    let (_discovery, mut work, _watch) = streaming();
    let next = step(&mut work, Event::Polled(RxEvent::StreamEnded));
    assert!(matches!(next, Action::PollReady));
    let never = |_: &DnsNameAndPort, _: &str| -> Option<String> { None };
    let next = work.poll_rpc(ready(), &run, &values, &never).unwrap();
    assert!(matches!(next, Action::PollReady));
    assert!(matches!(step(&mut work, ready()), Action::PollWatches));
    assert!(matches!(step(&mut work, no_watch()), Action::Done));
}

#[test]
fn names_differ_by_host_and_by_port() {
    let (_discovery, mut work, _watch) = streaming();
    step(&mut work, Event::Polled(RxEvent::StreamNotReady(7)));
    step(&mut work, Event::Start);
    step(&mut work, ready());
    let (tx, _rx) = unbounded();
    let other = DnsNameAndPort { host: "web".to_string(), port: 81 };
    let next = step(&mut work, Event::Watch(WatchPoll::Request(other, tx)));
    assert!(is_get(next, "web.prod.svc:81"));
}

#[test]
fn watch_hears_of_its_own_name_only() {
    let (mut discovery, mut work, mut web) = streaming();
    step(&mut work, Event::Polled(RxEvent::StreamNotReady(7)));
    step(&mut work, Event::Start);
    step(&mut work, ready());
    let (mut api, _) = watch(&mut discovery, &mut work, "api");
    step(&mut work, Event::Response("api"));
    step(&mut work, ready());
    step(&mut work, no_watch());
    step(&mut work, item(7, add(&[1])));
    step(&mut work, Event::Polled(RxEvent::StreamNotReady(7)));
    step(&mut work, Event::Polled(RxEvent::Response(8)));
    step(&mut work, item(8, add(&[2])));
    drop(work);
    assert_eq!(told(&mut web, 9), vec![(1, true)]);
    assert_eq!(told(&mut api, 9), vec![(2, true)]);
}

#[test]
fn watches_stay_in_step_with_what_is_known() {
    let (mut discovery, mut work, mut first) = streaming();
    step(&mut work, item(7, add(&[1, 2, 3])));
    step(&mut work, item(7, remove(&[2])));
    step(&mut work, Event::Polled(RxEvent::StreamEnded));
    step(&mut work, ready());
    step(&mut work, Event::Response("again"));
    step(&mut work, ready());
    let (mut second, _) = watch(&mut discovery, &mut work, "web");
    step(&mut work, ready());
    step(&mut work, no_watch());
    step(&mut work, Event::Polled(RxEvent::Response(8)));
    step(&mut work, item(8, add(&[3, 4])));
    let read = |told: Vec<(u16, bool)>| {
        let mut known = BTreeSet::new();
        for (port, came) in told {
            if came {
                known.insert(port);
            } else {
                known.remove(&port);
            }
        }
        known.into_iter().collect::<Vec<u16>>()
    };
    assert_eq!(read(told(&mut first, 6)), vec![3, 4]);
    assert_eq!(read(told(&mut second, 4)), vec![3, 4]);
}
