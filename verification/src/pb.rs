//! The messages of the destination service.
use crate::addr::TcpAddress;
use std::collections::HashMap;
use vstd::prelude::*;

verus! {

/// The request that opens a stream of updates for one name.
#[derive(Debug)]
pub struct Destination {
    pub scheme: String,
    pub path: String,
}

/// A request as contracts speak of it: the scheme and the path.
impl View for Destination {
    type V = (Seq<char>, Seq<char>);

    open spec fn view(&self) -> (Seq<char>, Seq<char>) {
        (self.scheme@, self.path@)
    }
}

/// An endpoint, its weight, and the labels that are its own.
#[derive(Debug)]
pub struct WeightedAddr {
    pub addr: Option<TcpAddress>,
    pub weight: u32,
    pub metric_labels: HashMap<String, String>,
}

/// Endpoints to add, and the labels that they share.
#[derive(Debug)]
pub struct WeightedAddrSet {
    pub addrs: Vec<WeightedAddr>,
    pub metric_labels: HashMap<String, String>,
}

/// Endpoints to remove.
#[derive(Debug)]
pub struct AddrSet {
    pub addrs: Vec<TcpAddress>,
}

/// The name has no endpoints; it is known to exist, or known not to.
#[derive(Clone, Copy, Debug)]
pub struct NoEndpoints {
    pub exists: bool,
}

/// What an update says.
#[derive(Debug)]
pub enum PbUpdate2 {
    Add(WeightedAddrSet),
    Remove(AddrSet),
    NoEndpoints(NoEndpoints),
}

/// One message of a stream of updates.
#[derive(Debug)]
pub struct PbUpdate {
    pub update: Option<PbUpdate2>,
}

} // verus!
