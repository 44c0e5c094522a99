//! The names that are watched.
use vstd::prelude::*;

verus! {

/// A DNS name and a port: the authority that a watch is for. The name is held in the one spelling
/// in which names are compared.
#[derive(Debug)]
pub struct DnsNameAndPort {
    pub host: String,
    pub port: u16,
}

/// An authority as contracts speak of it: the name and the port.
impl View for DnsNameAndPort {
    type V = (Seq<char>, u16);

    open spec fn view(&self) -> (Seq<char>, u16) {
        (self.host@, self.port)
    }
}

impl Clone for DnsNameAndPort {
    fn clone(&self) -> (r: Self)
        ensures
            r == *self,
    {
        DnsNameAndPort { host: self.host.clone(), port: self.port }
    }
}

impl DnsNameAndPort {
    /// Whether both name and port are the same.
    pub fn same_as(&self, other: &DnsNameAndPort) -> (r: bool)
        ensures
            r == (self@ == other@),
    {
        self.port == other.port && self.host == other.host
    }
}

} // verus!
