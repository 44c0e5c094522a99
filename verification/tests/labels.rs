use discovery::addr::{Ip, IpAddr, IpAddress, SocketAddr, TcpAddress};
use discovery::labels::{hash_pairs, DstLabels, LabelRequest, Labeled};
use discovery::pb::WeightedAddr;
use std::borrow::Borrow;
use std::collections::hash_map::DefaultHasher;
use std::collections::HashMap;
use std::hash::{Hash, Hasher};
use std::sync::Arc;

fn map(pairs: &[(&str, &str)]) -> HashMap<String, String> {
    pairs.iter().map(|(k, v)| (k.to_string(), v.to_string())).collect()
}

fn labels(set: &[(&str, &str)], addr: &[(&str, &str)]) -> DstLabels {
    DstLabels { set: Arc::new(map(set)), addr: Arc::new(map(addr)) }
}

fn tcp() -> TcpAddress {
    TcpAddress { ip: Some(IpAddress { ip: Some(Ip::Ipv4(0x0a00_0001)) }), port: 80 }
}

#[test]
fn labels_are_empty_only_without_any() {
    assert!(labels(&[], &[]).is_empty());
    assert!(!labels(&[("a", "1")], &[]).is_empty());
    assert!(!labels(&[], &[("b", "2")]).is_empty());
    assert!(!labels(&[("a", "1")], &[("b", "2")]).is_empty());
}

#[test]
fn pairs_list_the_set_first() {
    let both = labels(&[("service", "web"), ("ns", "prod")], &[("pod", "web-1")]);
    let pairs = both.pairs();
    assert_eq!(pairs.len(), 3);
    let mut first = pairs[..2].to_vec();
    first.sort();
    assert_eq!(first, vec![("ns", "prod"), ("service", "web")]);
    assert_eq!(pairs[2], ("pod", "web-1"));
    assert!(labels(&[], &[]).pairs().is_empty());
}

#[test]
fn clone_of_labels_shares_the_maps() {
    let original = labels(&[("a", "1")], &[("b", "2")]);
    let clone = original.clone();
    assert_eq!(clone, original);
    assert!(Arc::ptr_eq(&clone.set, &original.set));
    assert!(Arc::ptr_eq(&clone.addr, &original.addr));
}

/// A hasher that keeps what it is fed.
#[derive(Debug, Default, PartialEq)]
struct Fed(Vec<u8>);

impl Hasher for Fed {
    fn write(&mut self, bytes: &[u8]) {
        self.0.extend_from_slice(bytes);
    }

    fn finish(&self) -> u64 {
        0
    }
}

#[test]
fn hasher_is_fed_the_pairs_and_nothing_else() {
    let all = labels(&[("service", "web")], &[("pod", "web-1")]);
    let mut fed = Fed::default();
    all.hash(&mut fed);
    let mut expected = Fed::default();
    ("service", "web").hash(&mut expected);
    ("pod", "web-1").hash(&mut expected);
    assert_eq!(fed, expected);

    let many = labels(&[("a", "1"), ("b", "2"), ("c", "3")], &[("d", "4"), ("e", "5")]);
    let mut fed = Fed::default();
    many.hash(&mut fed);
    let mut expected = Fed::default();
    for pair in many.pairs() {
        pair.hash(&mut expected);
    }
    assert_eq!(fed, expected);
    let mut fed = Fed::default();
    many.clone().hash(&mut fed);
    assert_eq!(fed, expected);
}

#[test]
fn hasher_is_fed_pairs_in_their_order() {
    let pairs = vec![("b", "2"), ("a", "1"), ("b", "2")];
    let mut fed = Fed::default();
    hash_pairs(&pairs, &mut fed);
    let mut expected = Fed::default();
    ("b", "2").hash(&mut expected);
    ("a", "1").hash(&mut expected);
    ("b", "2").hash(&mut expected);
    assert_eq!(fed, expected);
}

#[test]
fn hasher_is_left_alone_without_labels() {
    let mut fed = Fed(vec![1, 2, 3]);
    labels(&[], &[]).hash(&mut fed);
    assert_eq!(fed, Fed(vec![1, 2, 3]));
}

#[test]
fn few_labels_are_listed_in_one_way() {
    let one = labels(&[("service", "web")], &[("pod", "web-1")]);
    let other = labels(&[("service", "web")], &[("pod", "web-1")]);
    assert_eq!(one.pairs(), vec![("service", "web"), ("pod", "web-1")]);
    assert_eq!(one.pairs(), other.pairs());
}

#[test]
fn labels_of_one_entry_each_hash_alike() {
    fn hash(labels: &DstLabels) -> u64 {
        let mut hasher = DefaultHasher::new();
        labels.hash(&mut hasher);
        hasher.finish()
    }
    let one = labels(&[("a", "1")], &[("b", "2")]);
    assert_eq!(hash(&one), hash(&labels(&[("a", "1")], &[("b", "2")])));
    assert_ne!(hash(&one), hash(&labels(&[("a", "1")], &[("b", "3")])));
    assert_ne!(hash(&one), hash(&labels(&[], &[])));
}

#[test]
fn from_pb_takes_both_kinds_of_labels() {
    let set = Arc::new(map(&[("service", "web")]));
    let pb = WeightedAddr { addr: Some(tcp()), weight: 3, metric_labels: map(&[("pod", "web-1")]) };
    let labeled = Labeled::from_pb(pb, &set).unwrap();
    let expected = SocketAddr { ip: IpAddr::V4([10, 0, 0, 1]), port: 80 };
    assert_eq!(labeled.inner, expected);
    assert_eq!(labeled.metric_labels, labels(&[("service", "web")], &[("pod", "web-1")]));
    assert!(Arc::ptr_eq(&labeled.metric_labels.set, &set));
    assert_eq!(labeled.port, 80);
    let borrowed: &SocketAddr = labeled.borrow();
    assert_eq!(*borrowed, expected);
    assert_eq!(labeled.clone(), labeled);
}

#[test]
fn from_pb_without_address_is_none() {
    let set = Arc::new(map(&[]));
    let none = WeightedAddr { addr: None, weight: 1, metric_labels: map(&[]) };
    assert!(Labeled::from_pb(none, &set).is_none());
    let empty = TcpAddress { ip: Some(IpAddress { ip: None }), port: 80 };
    let unusable = WeightedAddr { addr: Some(empty), weight: 1, metric_labels: map(&[]) };
    assert!(Labeled::from_pb(unusable, &set).is_none());
}

#[test]
fn request_gets_the_labels_of_its_service() {
    let service = LabelRequest::new(labels(&[("a", "1")], &[("b", "2")]), "svc");
    assert_eq!(service.inner, "svc");
    let mut extensions = http::Extensions::new();
    extensions.insert(7u8);
    extensions.insert(labels(&[("old", "x")], &[]));
    service.label(&mut extensions);
    assert_eq!(extensions.get::<DstLabels>(), Some(&labels(&[("a", "1")], &[("b", "2")])));
    assert_eq!(extensions.get::<u8>(), Some(&7));
    assert_eq!(service.clone(), service);
}

#[test]
fn request_to_an_unlabeled_service_is_left_alone() {
    let service = LabelRequest::none("svc");
    assert_eq!(service.inner, "svc");
    assert!(service.labels.is_none());
    let mut extensions = http::Extensions::new();
    service.label(&mut extensions);
    assert!(extensions.get::<DstLabels>().is_none());
    extensions.insert(labels(&[("old", "x")], &[]));
    service.label(&mut extensions);
    assert_eq!(extensions.get::<DstLabels>(), Some(&labels(&[("old", "x")], &[])));
}
