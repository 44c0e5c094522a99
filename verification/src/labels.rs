//! Labels on endpoints, and on the requests that are sent to them.
use crate::addr::{pb_to_sock_addr, sock_addr, SocketAddr};
use crate::pb::WeightedAddr;
use std::borrow::Borrow;
use std::collections::HashMap;
use std::hash::{Hash, Hasher};
use std::ops::Deref;
use std::sync::Arc;
use vstd::prelude::*;

verus! {

/// The labels of an endpoint: those of the set that it came with, and those of its own.
#[derive(Debug, PartialEq, Eq)]
pub struct DstLabels {
    pub set: Arc<HashMap<String, String>>,
    pub addr: Arc<HashMap<String, String>>,
}

/// A value that belongs to an endpoint, with the endpoint's labels.
#[derive(Debug, PartialEq, Eq, Hash)]
pub struct Labeled<T> {
    pub metric_labels: DstLabels,
    pub inner: T,
}

/// A service that adds a label extension to all requests transiting it.
#[derive(Debug, PartialEq, Eq)]
pub struct LabelRequest<T> {
    pub labels: Option<DstLabels>,
    pub inner: T,
}

/// What a watch is told: that an endpoint came, or that one went.
#[derive(Debug, PartialEq, Eq)]
pub enum Update {
    Insert(Labeled<SocketAddr>),
    Remove(Labeled<SocketAddr>),
}

/// `http::Extensions`, opaque.
#[verifier::external_type_specification]
#[verifier::external_body]
pub struct ExExtensions(http::Extensions);

/// The labels that the extensions of a request hold.
pub uninterp spec fn labels_in(extensions: http::Extensions) -> Option<DstLabels>;

/// What else the extensions of a request hold: the value of each other type, where a number stands
/// for the type and one for the value.
pub uninterp spec fn others_in(extensions: http::Extensions) -> Map<int, int>;

/// `http::Extensions::insert`, for labels. The extensions hold these labels afterwards, and of
/// every other type what they held before; the call hands back the labels that they held before.
#[verifier::external_body]
fn insert_labels(extensions: &mut http::Extensions, labels: DstLabels) -> (r: Option<DstLabels>)
    ensures
        labels_in(*final(extensions)) == Some(labels),
        others_in(*final(extensions)) == others_in(*old(extensions)),
        r == labels_in(*old(extensions)),
{
    extensions.insert(labels)
}

/// `std::sync::Arc::clone`. The clone points to the same map.
#[verifier::external_body]
fn share(labels: &Arc<HashMap<String, String>>) -> (r: Arc<HashMap<String, String>>)
    ensures
        r == *labels,
{
    Arc::clone(labels)
}

/// Whether `pairs` lists the entries of `map`, each once. In which order is left open.
pub open spec fn lists(pairs: Seq<(Seq<char>, Seq<char>)>, map: Map<String, String>) -> bool {
    &&& pairs.len() == map.dom().len()
    &&& forall|i: int|
        #![trigger pairs[i]]
        0 <= i < pairs.len() ==> exists|k: String| #[trigger]
            map.contains_key(k) && pairs[i] == (k@, map[k]@)
    &&& forall|k: String| #[trigger] map.contains_key(k) ==> pairs.contains((k@, map[k]@))
}

/// `std::collections::HashMap::iter`, for labels. The call visits each entry once, in an order
/// that is left open.
#[verifier::external_body]
fn entries(labels: &HashMap<String, String>) -> (r: Vec<(&String, &String)>)
    ensures
        lists(r@.map_values(|p: (&String, &String)| (p.0@, p.1@)), labels@),
{
    labels.iter().collect()
}

/// `std::hash::Hash::hash`, for a pair of strings. What a hasher makes of the pair is the hasher's
/// own affair, so nothing is claimed of its state. Public because the contract of `DstLabels::hash`
/// speaks of its calls, one for each pair.
#[verifier::external_body]
pub fn hash_pair<H: Hasher>(pair: &(&str, &str), state: &mut H) {
    pair.hash(state)
}

/// Feeds a pair to a hasher by way of `hash`, and says so.
fn feed<H: Hasher, F: Fn(&(&str, &str), &mut H)>(hash: F, pair: &(&str, &str), state: &mut H)
    requires
        forall|p: &(&str, &str), m: &mut H| #[trigger] call_requires(hash, (p, m)),
    ensures
        exists|p: &(&str, &str), m: &mut H|
            #![trigger call_ensures(hash, (p, m), ())]
            *p == *pair && *m == *old(state) && *final(m) == *final(state) && call_ensures(
                hash,
                (p, m),
                (),
            ),
{
    hash(pair, state)
}

/// Whether `pair` is the `k`-th of `pairs`.
pub open spec fn is_nth(pairs: Seq<(&str, &str)>, k: int, pair: (&str, &str)) -> bool {
    0 <= k < pairs.len() && pairs[k] == pair
}

/// Feeds pairs to a hasher, one after the other and nothing else.
pub fn hash_pairs<H: Hasher>(pairs: &Vec<(&str, &str)>, state: &mut H)
    ensures
        exists|states: Seq<H>|
            {
                &&& #[trigger] states.len() == pairs@.len() + 1
                &&& states[0] == *old(state)
                &&& states[pairs@.len() as int] == *final(state)
                &&& forall|k: int, pair: (&str, &str)|
                    #[trigger] is_nth(pairs@, k, pair) ==> exists|p: &(&str, &str), m: &mut H|
                        #![trigger call_ensures(hash_pair::<H>, (p, m), ())]
                        *p == pair && *m == states[k] && *final(m) == states[k + 1]
                            && call_ensures(hash_pair::<H>, (p, m), ())
            },
{
    let ghost mut states: Seq<H> = seq![*state];
    let mut i: usize = 0;
    while i < pairs.len()
        invariant
            i <= pairs@.len(),
            states.len() == i + 1,
            states[0] == *old(state),
            states[i as int] == *state,
            forall|k: int, pair: (&str, &str)|
                k < i && #[trigger] is_nth(pairs@, k, pair) ==> exists|
                    p: &(&str, &str),
                    m: &mut H,
                |
                    #![trigger call_ensures(hash_pair::<H>, (p, m), ())]
                    *p == pair && *m == states[k] && *final(m) == states[k + 1]
                        && call_ensures(hash_pair::<H>, (p, m), ()),
        decreases pairs@.len() - i,
    {
        feed(hash_pair::<H>, &pairs[i], state);
        proof {
            states = states.push(*state);
        }
        i = i + 1;
    }
    assert(states.len() == pairs@.len() + 1);
}

/// Whether `pairs` lists labels: those of the set, then those of the endpoint.
pub open spec fn lists_labels(pairs: Seq<(Seq<char>, Seq<char>)>, labels: DstLabels) -> bool {
    let n = labels.set@.dom().len() as int;
    &&& n <= pairs.len()
    &&& lists(pairs.take(n), labels.set@)
    &&& lists(pairs.skip(n), labels.addr@)
}

impl Clone for DstLabels {
    fn clone(&self) -> (r: Self)
        ensures
            r == *self,
    {
        DstLabels { set: share(&self.set), addr: share(&self.addr) }
    }
}

impl DstLabels {
    /// Whether there are no labels at all.
    pub fn is_empty(&self) -> (r: bool)
        ensures
            r == (self.addr@.is_empty() && self.set@.is_empty()),
    {
        self.addr.is_empty() && self.set.is_empty()
    }

    /// The labels as pairs of name and value: those of the set, then those of the endpoint.
    pub fn pairs(&self) -> (r: Vec<(&str, &str)>)
        ensures
            lists_labels(r@.map_values(|p: (&str, &str)| (p.0@, p.1@)), *self),
    {
        let set = entries(&self.set);
        let addr = entries(&self.addr);
        let mut r: Vec<(&str, &str)> = Vec::new();
        let ghost view = |p: (&String, &String)| (p.0@, p.1@);
        let ghost slices = |p: (&str, &str)| (p.0@, p.1@);
        let mut i: usize = 0;
        while i < set.len()
            invariant
                i <= set@.len(),
                view == (|p: (&String, &String)| (p.0@, p.1@)),
                slices == (|p: (&str, &str)| (p.0@, p.1@)),
                r@.map_values(slices) == set@.map_values(view).take(i as int),
            decreases set@.len() - i,
        {
            let ghost before = r@;
            r.push((set[i].0.as_str(), set[i].1.as_str()));
            assert(r@.map_values(slices) =~= before.map_values(slices).push(
                view(set@[i as int]),
            ));
            i = i + 1;
            assert(set@.map_values(view).take(i as int) =~= set@.map_values(view).take(
                i - 1,
            ).push(view(set@[i - 1])));
        }
        let mut j: usize = 0;
        while j < addr.len()
            invariant
                j <= addr@.len(),
                view == (|p: (&String, &String)| (p.0@, p.1@)),
                slices == (|p: (&str, &str)| (p.0@, p.1@)),
                r@.map_values(slices) == set@.map_values(view) + addr@.map_values(view).take(
                    j as int,
                ),
            decreases addr@.len() - j,
        {
            let ghost before = r@;
            r.push((addr[j].0.as_str(), addr[j].1.as_str()));
            assert(r@.map_values(slices) =~= before.map_values(slices).push(
                view(addr@[j as int]),
            ));
            j = j + 1;
            assert(addr@.map_values(view).take(j as int) =~= addr@.map_values(view).take(
                j - 1,
            ).push(view(addr@[j - 1])));
        }
        proof {
            let pairs = r@.map_values(slices);
            let n = self.set@.dom().len() as int;
            assert(pairs.take(n) =~= set@.map_values(view));
            assert(pairs.skip(n) =~= addr@.map_values(view));
        }
        r
    }
}

impl Hash for DstLabels {
    /// Feeds the labels to a hasher, pair by pair and nothing else: those of the set, then those of
    /// the endpoint. Without labels the hasher is left alone.
    fn hash<H: Hasher>(&self, state: &mut H)
        ensures
            exists|pairs: Seq<(&str, &str)>, states: Seq<H>|
                #![trigger pairs.len(), states.len()]
                {
                    &&& lists_labels(pairs.map_values(|p: (&str, &str)| (p.0@, p.1@)), *self)
                    &&& states.len() == pairs.len() + 1
                    &&& states[0] == *old(state)
                    &&& states[pairs.len() as int] == *final(state)
                    &&& forall|k: int, pair: (&str, &str)|
                        #[trigger] is_nth(pairs, k, pair) ==> exists|
                            p: &(&str, &str),
                            m: &mut H,
                        |
                            #![trigger call_ensures(hash_pair::<H>, (p, m), ())]
                            *p == pair && *m == states[k] && *final(m) == states[k + 1]
                                && call_ensures(hash_pair::<H>, (p, m), ())
                },
            self.set@.is_empty() && self.addr@.is_empty() ==> *final(state) == *old(state),
    {
        hash_pairs(&self.pairs(), state);
    }
}

impl<T: Clone> Clone for Labeled<T> {
    fn clone(&self) -> (r: Self)
        ensures
            r.metric_labels == self.metric_labels,
            cloned(self.inner, r.inner),
    {
        Labeled { metric_labels: self.metric_labels.clone(), inner: self.inner.clone() }
    }
}

impl<T> Deref for Labeled<T> {
    type Target = T;

    fn deref(&self) -> (r: &T)
        ensures
            *r == self.inner,
    {
        &self.inner
    }
}

impl<T> Borrow<T> for Labeled<T> {
    fn borrow(&self) -> &T
        returns
            &self.inner,
    {
        &self.inner
    }
}

/// Whether `labeled` is the endpoint of `pb`, under its own labels and those of the set.
pub open spec fn labeled_from(
    pb: WeightedAddr,
    set_labels: HashMap<String, String>,
    labeled: Labeled<SocketAddr>,
) -> bool {
    &&& pb.addr is Some
    &&& sock_addr(pb.addr->0) == Some(labeled.inner@)
    &&& *labeled.metric_labels.addr == pb.metric_labels
    &&& *labeled.metric_labels.set == set_labels
}

/// Whether a message names an address that can be used.
pub open spec fn has_sock_addr(pb: WeightedAddr) -> bool {
    pb.addr is Some && sock_addr(pb.addr->0) is Some
}

impl Labeled<SocketAddr> {
    /// The endpoint that a message names, under its own labels and those of the set; `None` where
    /// the message names no address.
    pub fn from_pb(pb: WeightedAddr, set_labels: &Arc<HashMap<String, String>>) -> (r: Option<
        Labeled<SocketAddr>,
    >)
        ensures
            r is Some <==> has_sock_addr(pb),
            r matches Some(labeled) ==> labeled_from(pb, **set_labels, labeled),
    {
        let addr = match pb.addr {
            Some(addr) => addr,
            None => return None,
        };
        let inner = match pb_to_sock_addr(addr) {
            Some(inner) => inner,
            None => return None,
        };
        let metric_labels = DstLabels {
            addr: Arc::new(pb.metric_labels),
            set: share(set_labels),
        };
        Some(Labeled { inner, metric_labels })
    }
}

impl<T: Clone> Clone for LabelRequest<T> {
    fn clone(&self) -> (r: Self)
        ensures
            r.labels == self.labels,
            cloned(self.inner, r.inner),
    {
        let labels = match &self.labels {
            Some(labels) => Some(labels.clone()),
            None => None,
        };
        LabelRequest { labels, inner: self.inner.clone() }
    }
}

impl<T> LabelRequest<T> {
    /// A service whose requests get these labels.
    pub fn new(labels: DstLabels, inner: T) -> (r: Self)
        ensures
            r.labels == Some(labels),
            r.inner == inner,
    {
        LabelRequest { labels: Some(labels), inner }
    }

    /// A service whose requests get no labels.
    pub fn none(inner: T) -> (r: Self)
        ensures
            r.labels is None,
            r.inner == inner,
    {
        LabelRequest { labels: None, inner }
    }

    /// Labels a request that is about to be sent: where the service has labels, the request's
    /// extensions hold them afterwards, and all else that they held; without labels they are left
    /// as they are.
    pub fn label(&self, extensions: &mut http::Extensions)
        ensures
            self.labels matches Some(labels) ==> labels_in(*final(extensions)) == Some(labels),
            others_in(*final(extensions)) == others_in(*old(extensions)),
            self.labels is None ==> *final(extensions) == *old(extensions),
    {
        if let Some(labels) = &self.labels {
            insert_labels(extensions, labels.clone());
        }
    }
}

} // verus!
