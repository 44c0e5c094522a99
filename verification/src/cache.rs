//! What the library asks of the cache that holds the endpoints of one name, and what it learns.
//!
//! The cache itself is the caller's: a value of a type of its own, and a function that carries
//! out one operation on it and reports each value that came or went.
use crate::addr::SocketAddr;
use crate::labels::{Labeled, Update};
use vstd::prelude::*;

verus! {

/// Whether a name is known to exist. Where it is, the cache holds its endpoints.
#[derive(Debug)]
pub enum Exists<C> {
    Unknown,
    Yes(C),
    No,
}

/// How a cache changed: a value came, or one went.
#[derive(Clone, Copy, Debug, PartialEq, Eq)]
pub enum CacheChange {
    Insertion,
    Removal,
}

/// An operation on a cache.
#[derive(Debug)]
pub enum CacheOp<C> {
    /// Make a new cache, which holds nothing.
    New,
    /// Take in these values.
    Extend(C, Vec<Labeled<SocketAddr>>),
    /// Give up the values with these addresses.
    Remove(C, Vec<SocketAddr>),
    /// Give up every value.
    Clear(C),
    /// Let the next modification replace what the cache holds.
    SetResetOnNextModification(C),
}

/// The cache after an operation, and the changes that the operation reported, in their order.
#[derive(Debug)]
pub struct CacheReply<C> {
    pub cache: C,
    pub changes: Vec<(Labeled<SocketAddr>, CacheChange)>,
}

impl<C> Exists<C> {
    /// Takes the value out, and leaves `Unknown` behind.
    pub fn take(&mut self) -> (r: Self)
        ensures
            r == *old(self),
            *final(self) == Exists::<C>::Unknown,
    {
        let mut taken = Exists::Unknown;
        std::mem::swap(self, &mut taken);
        taken
    }
}

/// Whether `reply` may be what `run` answers to `op`.
pub open spec fn answers<C, F: Fn(CacheOp<C>) -> CacheReply<C>>(
    run: F,
    op: CacheOp<C>,
    reply: CacheReply<C>,
) -> bool {
    call_ensures(run, (op,), reply)
}

/// Whether `run` can be asked to carry out any operation.
pub open spec fn runs<C, F: Fn(CacheOp<C>) -> CacheReply<C>>(run: F) -> bool {
    forall|op: CacheOp<C>| #[trigger] call_requires(run, (op,))
}

/// Whether `cache` may be a new cache of `run`'s.
pub open spec fn is_new<C, F: Fn(CacheOp<C>) -> CacheReply<C>>(run: F, cache: C) -> bool {
    exists|reply: CacheReply<C>| #[trigger]
        answers(run, CacheOp::New, reply) && reply.cache == cache
}

/// The update that tells a watch of a change.
pub open spec fn update_for(change: (Labeled<SocketAddr>, CacheChange)) -> Update {
    match change.1 {
        CacheChange::Insertion => Update::Insert(change.0),
        CacheChange::Removal => Update::Remove(change.0),
    }
}

/// The updates that tell a watch of changes.
pub open spec fn updates_for(changes: Seq<(Labeled<SocketAddr>, CacheChange)>) -> Seq<Update> {
    changes.map_values(|change: (Labeled<SocketAddr>, CacheChange)| update_for(change))
}

} // verus!
