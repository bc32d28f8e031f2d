//! The router binding: the endpoints of a node, and which of them leads
//! to whom.
//!
//! The router owns its endpoints and knows them by small numbers. A
//! route names the endpoint and the peer behind which a user is reached;
//! how routes are found is not the router's business here.

use crate::endpoint::{
    disconnected, greeted, received, routed, taken, Endpoint, EndpointView, Frame, NetError, Target,
};
use crate::error::Error;
use crate::identity::Identity;
use crate::idmap::IdMap;
use crate::peers::{Address, Peer};
use vstd::prelude::*;

verus! {

/// Where a user is reached: behind a peer of an endpoint.
#[derive(Clone, Copy, Debug, PartialEq, Eq, Structural)]
pub struct Route {
    pub endpoint: usize,
    pub peer: u16,
}

impl View for Route {
    type V = Route;

    open spec fn view(&self) -> Route {
        *self
    }
}

/// What one endpoint is to send: the addresses to send a frame to.
#[derive(Debug)]
pub struct Delivery {
    pub endpoint: usize,
    pub to: Vec<Address>,
}

/// The router binding
#[derive(Debug)]
pub struct Router {
    endpoints: Vec<Endpoint>,
    routes: IdMap<Route>,
}

impl Router {
    /// How many endpoints the router owns; they are numbered from 0.
    pub closed spec fn count(&self) -> nat {
        self.endpoints@.len()
    }

    /// The endpoint with the given number.
    pub closed spec fn endpoint(&self, at: int) -> EndpointView {
        self.endpoints@[at]@
    }

    /// The peers of the endpoint with the given number.
    pub open spec fn peers_of(&self, at: int) -> Seq<Peer> {
        self.endpoint(at).peers
    }

    /// The frames that wait at the endpoint with the given number.
    pub open spec fn waiting_at(&self, at: int) -> Seq<(Seq<u8>, usize)> {
        self.endpoint(at).waiting
    }

    /// Whether the endpoint with the given number runs.
    pub open spec fn started_at(&self, at: int) -> bool {
        self.endpoint(at).started
    }

    /// The routes by the bytes of the identities.
    pub closed spec fn routes(&self) -> Map<Seq<u8>, Route> {
        self.routes@
    }

    /// Nothing but the endpoint `at` differs between `self` and `old`.
    pub open spec fn same_but(&self, before: Router, at: int) -> bool {
        &&& self.count() == before.count()
        &&& self.routes() == before.routes()
        &&& forall|i: int|
            0 <= i < before.count() && i != at ==> #[trigger] self.endpoint(i) == before.endpoint(i)
    }

    /// A router without endpoints or routes.
    pub fn new() -> (r: Self)
        ensures
            r.count() == 0,
            r.routes() == Map::<Seq<u8>, Route>::empty(),
    {
        Router { endpoints: Vec::new(), routes: IdMap::new() }
    }

    /// Registers an endpoint and starts it. Its number comes back, and
    /// its peers, for the socket to connect to.
    pub fn add_endpoint(&mut self, ep: Endpoint) -> (r: (usize, Vec<(usize, Address)>))
        ensures
            r.0 == old(self).count(),
            final(self).count() == old(self).count() + 1,
            final(self).routes() == old(self).routes(),
            final(self).endpoint(r.0 as int) == (EndpointView { started: true, ..ep@ }),
            r.1@ == ep.peers().map_values(|p: Peer| (p.id, p.dst)),
            forall|i: int| 0 <= i < old(self).count() ==> #[trigger] final(self).endpoint(i) == old(self).endpoint(i),
    {
        let mut ep = ep;
        let known = ep.start();
        let id = self.endpoints.len();
        self.endpoints.push(ep);
        (id, known)
    }

    /// Notes that `user` is reached behind `peer` of `endpoint`.
    pub fn set_route(&mut self, user: Identity, route: Route)
        ensures
            final(self).routes() == old(self).routes().insert(user@, route),
            final(self).count() == old(self).count(),
            forall|i: int| 0 <= i < old(self).count() ==> #[trigger] final(self).endpoint(i) == old(self).endpoint(i),
    {
        self.routes.set(user, route);
    }

    /// How many peers the endpoint `at` can still take in; none, if the
    /// router has no such endpoint.
    pub fn ids_left(&self, at: usize) -> (r: usize)
        ensures
            r == if at < self.count() {
                usize::MAX - self.endpoint(at as int).next_id
            } else {
                0
            },
    {
        if at < self.endpoints.len() {
            self.endpoints[at].ids_left()
        } else {
            0
        }
    }

    /// Hands the endpoint `at` a connection that has introduced itself.
    /// What the endpoint says comes back; where the router has no such
    /// endpoint, the connection is to be closed.
    pub fn hello(&mut self, at: usize, src: &Address, port: u16) -> (r: Option<usize>)
        requires
            at < old(self).count() ==> old(self).endpoint(at as int).next_id < usize::MAX,
        ensures
            final(self).same_but(*old(self), at as int),
            at < old(self).count() ==> (r, final(self).endpoint(at as int)) == greeted(
                old(self).endpoint(at as int),
                *src,
                port,
            ),
            at >= old(self).count() ==> r is None,
    {
        if at >= self.endpoints.len() {
            return None;
        }
        let ghost before = self.endpoints@;
        let mut ep = self.endpoints.remove(at);
        let r = ep.hello(src, port);
        self.endpoints.insert(at, ep);
        proof {
            assert forall|j: int| 0 <= j < self.endpoints.len() && j != at implies (
            #[trigger] self.endpoints@[j]) == before[j] by {}
        }
        r
    }

    /// Hands the endpoint `at` a frame that has come in from `src`, and
    /// says whether the endpoint took it.
    pub fn receive(&mut self, at: usize, src: &Address, frame: Frame) -> (r: bool)
        ensures
            final(self).same_but(*old(self), at as int),
            at < old(self).count() ==> (r, final(self).endpoint(at as int)) == received(
                old(self).endpoint(at as int),
                *src,
                frame.0@,
            ),
            at >= old(self).count() ==> !r,
    {
        if at >= self.endpoints.len() {
            return false;
        }
        let ghost before = self.endpoints@;
        let mut ep = self.endpoints.remove(at);
        let r = ep.receive(src, frame);
        self.endpoints.insert(at, ep);
        proof {
            assert forall|j: int| 0 <= j < self.endpoints.len() && j != at implies (
            #[trigger] self.endpoints@[j]) == before[j] by {}
        }
        r
    }

    /// Tells the endpoint `at` that the connection of its peer `id` is
    /// gone.
    pub fn disconnect(&mut self, at: usize, id: usize)
        ensures
            final(self).same_but(*old(self), at as int),
            at < old(self).count() ==> final(self).endpoint(at as int) == disconnected(
                old(self).endpoint(at as int),
                id,
            ),
    {
        if at >= self.endpoints.len() {
            return ;
        }
        let ghost before = self.endpoints@;
        let mut ep = self.endpoints.remove(at);
        ep.disconnect(id);
        self.endpoints.insert(at, ep);
        proof {
            assert forall|j: int| 0 <= j < self.endpoints.len() && j != at implies (
            #[trigger] self.endpoints@[j]) == before[j] by {}
        }
    }

    /// Where a frame for `recipient` is to be sent
    ///
    /// Without a route to the recipient, or with a route over an
    /// endpoint that the router does not own, there is no route; a peer
    /// that cannot be reached is a network fault.
    pub fn send(&self, frame: &Frame, recipient: Identity) -> (r: Result<Delivery, Error>)
        ensures
            match r {
                Ok(d) => {
                    &&& self.routes().contains_key(recipient@)
                    &&& d.endpoint == self.routes()[recipient@].endpoint
                    &&& d.endpoint < self.count()
                    &&& routed(
                        self.peers_of(d.endpoint as int),
                        Target::Single(self.routes()[recipient@].peer),
                    ) == Ok::<Seq<Address>, NetError>(d.to@)
                },
                Err(e) => if !self.routes().contains_key(recipient@)
                    || self.routes()[recipient@].endpoint >= self.count() {
                    e == Error::NoRoute
                } else {
                    e == Error::NetworkFault && routed(
                        self.peers_of(self.routes()[recipient@].endpoint as int),
                        Target::Single(self.routes()[recipient@].peer),
                    ) is Err
                },
            },
    {
        let route = match self.routes.get(&recipient) {
            Some(r) => *r,
            None => {
                return Err(Error::NoRoute);
            },
        };
        if route.endpoint >= self.endpoints.len() {
            return Err(Error::NoRoute);
        }
        match self.endpoints[route.endpoint].send(frame, Target::Single(route.peer)) {
            Ok(to) => Ok(Delivery { endpoint: route.endpoint, to }),
            Err(_) => Err(Error::NetworkFault),
        }
    }

    /// Where a frame for everyone is to be sent: at each endpoint, to
    /// every verified peer.
    pub fn flood(&self, frame: &Frame) -> (r: Vec<Delivery>)
        ensures
            r.len() == self.count(),
            forall|i: int|
                0 <= i < r.len() ==> (#[trigger] r@[i]).endpoint == i && routed(
                    self.peers_of(i),
                    Target::Flood,
                ) == Ok::<Seq<Address>, NetError>(r@[i].to@),
    {
        let mut out: Vec<Delivery> = Vec::new();
        let mut i: usize = 0;
        while i < self.endpoints.len()
            invariant
                i <= self.endpoints.len(),
                out.len() == i,
                forall|j: int|
                    0 <= j < i ==> (#[trigger] out@[j]).endpoint == j && routed(
                        self.peers_of(j),
                        Target::Flood,
                    ) == Ok::<Seq<Address>, NetError>(out@[j].to@),
            decreases self.endpoints.len() - i,
        {
            match self.endpoints[i].send(frame, Target::Flood) {
                Ok(to) => {
                    out.push(Delivery { endpoint: i, to });
                },
                Err(_) => {
                    out.push(Delivery { endpoint: i, to: Vec::new() });
                },
            }
            i += 1;
        }
        out
    }

    /// The next frame that has come in: the frame, the peer that it came
    /// from, and the number of the endpoint. The endpoints are asked in
    /// the order of their numbers; `None` means that none has a frame.
    pub fn recv(&mut self) -> (r: Option<(Frame, Target, usize)>)
        ensures
            match r {
                None => {
                    &&& final(self).same_but(*old(self), -1)
                    &&& forall|i: int|
                        0 <= i < old(self).count() ==> !(#[trigger] taken(old(self).endpoint(i)).0
                            matches Ok(Some(_)))
                },
                Some((frame, from, at)) => {
                    &&& at < old(self).count()
                    &&& final(self).same_but(*old(self), at as int)
                    &&& taken(old(self).endpoint(at as int)).0 == Ok::<
                        Option<(Seq<u8>, Target)>,
                        NetError,
                    >(Some((frame.0@, from)))
                    &&& final(self).endpoint(at as int) == taken(old(self).endpoint(at as int)).1
                    &&& forall|i: int|
                        0 <= i < at ==> !(#[trigger] taken(old(self).endpoint(i)).0 matches Ok(
                            Some(_),
                        ))
                },
            },
    {
        let mut i: usize = 0;
        while i < self.endpoints.len()
            invariant
                i <= self.endpoints.len(),
                self.endpoints.len() == old(self).endpoints.len(),
                self.routes@ == old(self).routes@,
                forall|j: int|
                    0 <= j < self.endpoints.len() ==> (#[trigger] self.endpoints@[j])@ == old(self).endpoints@[j]@,
                forall|j: int|
                    0 <= j < i ==> !(#[trigger] taken(old(self).endpoints@[j]@).0 matches Ok(
                        Some(_),
                    )),
            decreases self.endpoints.len() - i,
        {
            let ghost before = self.endpoints@;
            let mut ep = self.endpoints.remove(i);
            let got = ep.next();
            self.endpoints.insert(i, ep);
            proof {
                assert forall|j: int| 0 <= j < self.endpoints.len() && j != i implies (
                #[trigger] self.endpoints@[j]) == before[j] by {}
            }
            match got {
                Ok(Some((frame, from))) => {
                    return Some((frame, from, i));
                },
                _ => {},
            }
            i += 1;
        }
        None
    }
}

} // verus!
