//! Handles to watch a name, and the handle to the work that serves them.
use crate::addr::SocketAddr;
use crate::authority::DnsNameAndPort;
use crate::channel::{
    another_sender, feeds, posted, request_channel, requested, send_request, serves, update_channel,
};
use crate::labels::{LabelRequest, Labeled, Update};
use crate::work::{DiscoveryWork, PhaseState, WorkState};
use futures::sync::mpsc::{UnboundedReceiver, UnboundedSender};
use vstd::prelude::*;

verus! {

/// A handle to start watching a destination for address changes.
#[derive(Debug)]
pub struct Discovery {
    pub tx: UnboundedSender<(DnsNameAndPort, UnboundedSender<Update>)>,
}

/// The changes to the endpoints of one name, each bound to a service.
#[derive(Debug)]
pub struct Watch<B> {
    pub rx: UnboundedReceiver<Update>,
    pub bind: B,
}

/// A background handle to eventually bind on the controller thread.
#[derive(Debug)]
pub struct Background {
    pub rx: UnboundedReceiver<(DnsNameAndPort, UnboundedSender<Update>)>,
    pub default_destination_namespace: String,
}

/// The work is gone, and no name can be watched.
#[derive(Clone, Copy, Debug, PartialEq, Eq)]
pub struct WorkGone {}

/// Bind a `SocketAddr` with a protocol.
pub trait Bind {
    /// The discovered service instance.
    type Service;

    /// Errors produced when an address cannot be bound.
    type BindError;

    /// Whether an address may be asked for: any may, unless an implementation says otherwise.
    open spec fn binds(&self, addr: &SocketAddr) -> bool {
        true
    }

    /// Bind a socket address with a service.
    fn bind(&self, addr: &SocketAddr) -> Result<Self::Service, Self::BindError>
        requires
            self.binds(addr),
    ;
}

impl<F, T, E> Bind for F where F: Fn(&SocketAddr) -> Result<T, E> {
    type Service = T;

    type BindError = E;

    open spec fn binds(&self, addr: &SocketAddr) -> bool {
        call_requires(*self, (addr,))
    }

    fn bind(&self, addr: &SocketAddr) -> (r: Result<T, E>)
        ensures
            call_ensures(*self, (addr,), r),
    {
        (*self)(addr)
    }
}

/// A value, or none for now.
#[derive(Debug, PartialEq, Eq)]
pub enum Async<T> {
    Ready(T),
    NotReady,
}

/// A change to a set of services.
#[derive(Debug, PartialEq, Eq)]
pub enum Change<K, T> {
    Insert(K, T),
    Remove(K),
}

/// Creates a "channel" of `Discovery` to `Background` handles.
///
/// The `Discovery` is used by a listener, the `Background` is consumed
/// on the controller thread.
pub fn new(default_destination_namespace: String) -> (r: (Discovery, Background))
    ensures
        serves(r.0.tx, r.1.rx),
        requested(r.0.tx).len() == 0,
        r.1.default_destination_namespace == default_destination_namespace,
{
    let (tx, rx) = request_channel();
    (Discovery { tx }, Background { rx, default_destination_namespace })
}

impl Clone for Discovery {
    fn clone(&self) -> (r: Self)
        ensures
            requested(r.tx).len() == 0,
            forall|rx: UnboundedReceiver<(DnsNameAndPort, UnboundedSender<Update>)>|
                #[trigger] serves(r.tx, rx) == serves(self.tx, rx),
    {
        Discovery { tx: another_sender(&self.tx) }
    }
}

impl Discovery {
    /// Start watching for address changes for a certain authority. The work is asked to send them
    /// to the watch; where it is gone, there is no watch.
    pub fn resolve<B>(&mut self, authority: &DnsNameAndPort, bind: B) -> (r: Result<
        Watch<B>,
        WorkGone,
    >)
        ensures
            exists|name: DnsNameAndPort, tx: UnboundedSender<Update>|
                {
                    &&& requested(final(self).tx) == #[trigger] requested(old(self).tx).push(
                        ((name, tx), r is Ok),
                    )
                    &&& name@ == authority@
                    &&& posted(tx).len() == 0
                    &&& r matches Ok(watch) ==> feeds(tx, watch.rx)
                },
            r matches Ok(watch) ==> watch.bind == bind,
            forall|rx: UnboundedReceiver<(DnsNameAndPort, UnboundedSender<Update>)>|
                #[trigger] serves(final(self).tx, rx) == serves(old(self).tx, rx),
    {
        let (tx, rx) = update_channel();
        match send_request(&mut self.tx, (authority.clone(), tx)) {
            Ok(()) => Ok(Watch { rx, bind }),
            Err(_) => Err(WorkGone {  }),
        }
    }
}

impl Background {
    /// Bind this handle to start talking to the controller API.
    pub fn work<C, W, S>(self) -> (r: DiscoveryWork<C, W, S>)
        ensures
            r@ == (WorkState::<C, W, S> {
                namespace: self.default_destination_namespace@,
                destinations: Seq::empty(),
                reconnects: Seq::empty(),
                rpc_ready: false,
                rx: self.rx,
                phase: PhaseState::Idle,
            }),
            r@.well_formed(),
    {
        DiscoveryWork::new(self.default_destination_namespace, self.rx)
    }
}

/// Whether `r` is what follows when the channel of updates was polled. An endpoint that came is
/// bound, and the service labels its requests with the endpoint's labels; one that went is passed
/// on; where an endpoint cannot be bound, or the channel failed, that is an error.
pub open spec fn taken_up<B: Bind>(
    bind: B,
    polled: Result<Async<Option<Update>>, ()>,
    r: Result<Async<Change<SocketAddr, LabelRequest<B::Service>>>, ()>,
) -> bool {
    match polled {
        Ok(Async::Ready(Some(Update::Insert(labeled)))) => exists|
            bound: Result<B::Service, B::BindError>,
        |
            {
                &&& #[trigger] call_ensures(B::bind, (&bind, &labeled.inner), bound)
                &&& match bound {
                    Ok(service) => r == Ok::<
                        Async<Change<SocketAddr, LabelRequest<B::Service>>>,
                        (),
                    >(
                        Async::Ready(
                            Change::Insert(
                                labeled.inner,
                                LabelRequest {
                                    labels: Some(labeled.metric_labels),
                                    inner: service,
                                },
                            ),
                        ),
                    ),
                    Err(_) => r is Err,
                }
            },
        Ok(Async::Ready(Some(Update::Remove(labeled)))) => r == Ok::<
            Async<Change<SocketAddr, LabelRequest<B::Service>>>,
            (),
        >(Async::Ready(Change::Remove(labeled.inner))),
        Ok(Async::NotReady) => r == Ok::<
            Async<Change<SocketAddr, LabelRequest<B::Service>>>,
            (),
        >(Async::NotReady),
        Ok(Async::Ready(None)) => r is Err,
        Err(_) => r is Err,
    }
}

impl<B: Bind> Watch<B> {
    /// Takes up what came of polling the channel of updates, which must not be over: an endpoint
    /// that came is bound and labeled, one that went is passed on.
    pub fn poll(&self, polled: Result<Async<Option<Update>>, ()>) -> (r: Result<
        Async<Change<SocketAddr, LabelRequest<B::Service>>>,
        (),
    >)
        requires
            polled != Ok::<Async<Option<Update>>, ()>(Async::Ready(None)),
            polled matches Ok(Async::Ready(Some(Update::Insert(labeled)))) ==> self.bind.binds(
                &labeled.inner,
            ),
        ensures
            taken_up(self.bind, polled, r),
    {
        let update = match polled {
            Ok(Async::Ready(Some(update))) => update,
            Ok(Async::Ready(None)) => return Err(()),
            Ok(Async::NotReady) => return Ok(Async::NotReady),
            Err(_) => return Err(()),
        };
        match update {
            Update::Insert(Labeled { metric_labels, inner: addr }) => {
                let bound = self.bind.bind(&addr);
                assert(call_ensures(B::bind, (&self.bind, &addr), bound));
                match bound {
                    Ok(service) => Ok(
                        Async::Ready(Change::Insert(addr, LabelRequest::new(metric_labels, service))),
                    ),
                    Err(_) => Err(()),
                }
            },
            Update::Remove(labeled) => Ok(Async::Ready(Change::Remove(labeled.inner))),
        }
    }
}

} // verus!
