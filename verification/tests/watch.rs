use discovery::addr::{IpAddr, SocketAddr};
use discovery::authority::DnsNameAndPort;
use discovery::labels::{DstLabels, LabelRequest, Labeled, Update};
use discovery::watch::{new, Async, Bind, Change, Watch, WorkGone};
use futures::sync::mpsc;
use futures::Stream;
use std::collections::{BTreeMap, HashMap};
use std::sync::Arc;

struct ByPort;

impl Bind for ByPort {
    type Service = u16;
    type BindError = &'static str;
    fn bind(&self, addr: &SocketAddr) -> Result<u16, &'static str> {
        if addr.port == 0 {
            Err("no port")
        } else {
            Ok(addr.port)
        }
    }
}

fn addr(port: u16) -> SocketAddr {
    SocketAddr { ip: IpAddr::V4([10, 0, 0, 1]), port }
}

fn labeled(port: u16) -> Labeled<SocketAddr> {
    let mut own = HashMap::new();
    own.insert("port".to_string(), port.to_string());
    let metric_labels = DstLabels { set: Arc::new(HashMap::new()), addr: Arc::new(own) };
    Labeled { metric_labels, inner: addr(port) }
}

fn authority(host: &str) -> DnsNameAndPort {
    DnsNameAndPort { host: host.to_string(), port: 80 }
}

fn watch() -> Watch<ByPort> {
    let (_tx, rx) = mpsc::unbounded();
    Watch { rx, bind: ByPort }
}

#[test]
fn resolve_asks_the_work_and_listens() {
    let (mut discovery, mut background) = new("prod".to_string());
    assert_eq!(background.default_destination_namespace, "prod");
    let mut watch = discovery.resolve(&authority("web"), ByPort).unwrap();
    let (name, tx) = background.rx.by_ref().wait().next().unwrap().unwrap();
    assert_eq!(name.host, "web");
    assert_eq!(name.port, 80);
    tx.unbounded_send(Update::Insert(labeled(8080))).unwrap();
    let update = watch.rx.by_ref().wait().next().unwrap().unwrap();
    assert_eq!(update, Update::Insert(labeled(8080)));
}

#[test]
fn each_watch_has_its_own_channel() {
    let (mut discovery, background) = new("prod".to_string());
    let mut other = discovery.clone();
    let mut first = discovery.resolve(&authority("web"), ByPort).unwrap();
    let mut second = other.resolve(&authority("api"), ByPort).unwrap();
    let requests: Vec<_> = background.rx.wait().take(2).map(|r| r.unwrap()).collect();
    assert_eq!(requests[0].0.host, "web");
    assert_eq!(requests[1].0.host, "api");
    requests[1].1.unbounded_send(Update::Remove(labeled(2))).unwrap();
    requests[0].1.unbounded_send(Update::Remove(labeled(1))).unwrap();
    let update = first.rx.by_ref().wait().next().unwrap().unwrap();
    assert_eq!(update, Update::Remove(labeled(1)));
    let update = second.rx.by_ref().wait().next().unwrap().unwrap();
    assert_eq!(update, Update::Remove(labeled(2)));
}

#[test]
fn resolve_fails_once_the_work_is_gone() {
    let (mut discovery, background) = new("prod".to_string());
    drop(background);
    assert_eq!(discovery.resolve(&authority("web"), ByPort).err(), Some(WorkGone {}));
}

#[test]
fn insertion_is_bound_and_labeled() {
    let polled = Ok(Async::Ready(Some(Update::Insert(labeled(8080)))));
    let service = LabelRequest::new(labeled(8080).metric_labels, 8080);
    assert_eq!(watch().poll(polled), Ok(Async::Ready(Change::Insert(addr(8080), service))));
}

#[test]
fn removal_is_passed_on() {
    let polled = Ok(Async::Ready(Some(Update::Remove(labeled(0)))));
    assert_eq!(watch().poll(polled), Ok(Async::Ready(Change::Remove(addr(0)))));
}

#[test]
fn nothing_for_now_is_passed_on() {
    assert_eq!(watch().poll(Ok(Async::NotReady)), Ok(Async::NotReady));
}

#[test]
fn address_that_cannot_be_bound_is_an_error() {
    assert_eq!(watch().poll(Ok(Async::Ready(Some(Update::Insert(labeled(0)))))), Err(()));
}

#[test]
fn failed_channel_is_an_error() {
    assert_eq!(watch().poll(Err(())), Err(()));
}

#[test]
fn each_poll_passes_on_its_update() {
    let watch = watch();
    let updates = vec![
        Update::Insert(labeled(1)),
        Update::Insert(labeled(2)),
        Update::Remove(labeled(1)),
        Update::Insert(labeled(2)),
    ];
    let expected = vec![
        Change::Insert(addr(1), LabelRequest::new(labeled(1).metric_labels, 1)),
        Change::Insert(addr(2), LabelRequest::new(labeled(2).metric_labels, 2)),
        Change::Remove(addr(1)),
        Change::Insert(addr(2), LabelRequest::new(labeled(2).metric_labels, 2)),
    ];
    let (tx, rx) = mpsc::unbounded();
    for update in updates {
        tx.unbounded_send(update).unwrap();
    }
    drop(tx);
    let changes: Vec<_> = rx
        .wait()
        .map(|update| match watch.poll(Ok(Async::Ready(Some(update.unwrap())))) {
            Ok(Async::Ready(change)) => change,
            _ => panic!("no change"),
        })
        .collect();
    assert_eq!(changes, expected);
    assert_eq!(watch.poll(Ok(Async::NotReady)), Ok(Async::NotReady));
    assert_eq!(services(changes), vec![(addr(2), labeled(2).metric_labels)]);
}

/// The addresses that have a service after changes, with the labels of the service.
fn services(changes: Vec<Change<SocketAddr, LabelRequest<u16>>>) -> Vec<(SocketAddr, DstLabels)> {
    let mut known = BTreeMap::new();
    for change in changes {
        match change {
            Change::Insert(addr, service) => {
                known.insert(addr, service.labels.unwrap());
            }
            Change::Remove(addr) => {
                known.remove(&addr);
            }
        }
    }
    known.into_iter().collect()
}

#[test]
fn function_binds_addresses() {
    let twice = |addr: &SocketAddr| -> Result<u32, ()> { Ok(2 * u32::from(addr.port)) };
    assert_eq!(Bind::bind(&twice, &addr(80)), Ok(160));
}
