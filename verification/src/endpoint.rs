//! The endpoint of the TCP overlay: what the router sees of a link.
//!
//! The endpoint decides; the sockets do. A frame that is to be sent
//! becomes a list of addresses to send it to, a connection that
//! introduces itself is matched to a peer or turned away, and a frame
//! that came in waits in the inbox until the router asks for it.

use crate::peers::{
    bound, fresh, held_by, loaded, lookup, position, rebound, released, unbound, Address, Peer,
    PeerErrs, PeerKey, PeerList, Sources,
};
use vstd::prelude::*;

verus! {

/// Define the runtime mode for this endpoint
#[derive(Clone, Copy, Debug, PartialEq, Eq, PartialOrd, Ord, Hash, Structural)]
pub enum Mode {
    /// Only peers that were loaded are talked to.
    Static,
    /// A peer that introduces itself is taken in.
    Dynamic,
}

impl Mode {
    /// Whether peers that were never loaded are taken in.
    pub fn dynamic(&self) -> (r: bool)
        ensures
            r == (*self == Mode::Dynamic),
    {
        match self {
            Mode::Dynamic => true,
            Mode::Static => false,
        }
    }
}

/// A frame of the router: to the link it is just bytes.
#[derive(Debug)]
pub struct Frame(pub Vec<u8>);

impl Clone for Frame {
    fn clone(&self) -> (r: Self)
        ensures
            r.0@ == self.0@,
    {
        let bytes = self.0.clone();
        assert(bytes@ =~= self.0@);
        Frame(bytes)
    }
}

/// Where a frame goes to, or where it came from.
#[derive(Clone, Copy, Debug, PartialEq, Eq, Structural)]
pub enum Target {
    /// Everyone who can be reached
    Flood,
    /// The peer with this id
    Single(u16),
}

/// Why the link could not do what was asked of it.
#[derive(Clone, Copy, Debug, PartialEq, Eq, Structural)]
pub enum NetError {
    /// The peer cannot be reached, or the endpoint does not run.
    ConnectionLost,
}

/// The destinations of the verified peers, in the order of the peers.
pub open spec fn verified_dsts(peers: Seq<Peer>) -> Seq<Address>
    decreases peers.len(),
{
    if peers.len() == 0 {
        Seq::empty()
    } else if peers.last().verified {
        verified_dsts(peers.drop_last()).push(peers.last().dst)
    } else {
        verified_dsts(peers.drop_last())
    }
}

/// Where a frame for `target` is to be sent: to the one peer if it is
/// verified, to every verified peer for a flood.
pub open spec fn routed(peers: Seq<Peer>, target: Target) -> Result<Seq<Address>, NetError> {
    match target {
        Target::Flood => Ok(verified_dsts(peers)),
        Target::Single(t) => match lookup(peers, PeerKey::Id(t as usize)) {
            Some(p) => if p.verified {
                Ok(seq![p.dst])
            } else {
                Err(NetError::ConnectionLost)
            },
            None => Err(NetError::ConnectionLost),
        },
    }
}

/// The endpoint of a TCP link.
#[derive(Debug)]
pub struct Endpoint {
    mode: Mode,
    peers: PeerList,
    inbox: Option<Vec<(Frame, usize)>>,
}

/// What an endpoint is to a contract.
#[verifier::ext_equal]
pub struct EndpointView {
    /// The mode in which the endpoint runs
    pub mode: Mode,
    /// The peers in the order of their ids
    pub peers: Seq<Peer>,
    /// The id that the next new peer gets
    pub next_id: int,
    /// Which peer each bound source leads to
    pub sources: Sources,
    /// Whether the endpoint was started
    pub started: bool,
    /// The frames that wait for the router, oldest first, each with the
    /// id of the peer that it came from
    pub waiting: Seq<(Seq<u8>, usize)>,
}

impl View for Endpoint {
    type V = EndpointView;

    closed spec fn view(&self) -> EndpointView {
        EndpointView {
            mode: self.mode,
            peers: self.peers.peers(),
            next_id: self.peers.next_id(),
            sources: self.peers.sources(),
            started: self.inbox is Some,
            waiting: match self.inbox {
                Some(q) => q@.map_values(|e: (Frame, usize)| (e.0.0@, e.1)),
                None => Seq::empty(),
            },
        }
    }
}

/// The endpoint after a connection from `src` has introduced itself
/// with `port`, and what the connection is told: the id of the peer at
/// that host and port, which is bound to the source; in dynamic mode a
/// new peer where there is none; and `None`, with nothing changed,
/// where there is none and the mode is static.
pub open spec fn greeted(v: EndpointView, src: Address, port: u16) -> (Option<usize>, EndpointView) {
    let dst = Address { ip: src.ip, port };
    match position(v.peers, PeerKey::Dst(dst)) {
        Some(i) => (
            Some(v.peers[i].id),
            EndpointView {
                peers: bound(v.peers, i, src),
                sources: rebound(v.sources, v.peers[i], src),
                ..v
            },
        ),
        None => if v.mode == Mode::Dynamic {
            (
                Some(v.next_id as usize),
                EndpointView {
                    peers: bound(v.peers.push(fresh(v.next_id, dst)), v.peers.len() as int, src),
                    sources: rebound(v.sources, fresh(v.next_id, dst), src),
                    next_id: v.next_id + 1,
                    ..v
                },
            )
        } else {
            (None, v)
        },
    }
}

/// The endpoint after a frame has come in from `src`, and whether the
/// frame was taken: it is, into the inbox, if the endpoint runs and the
/// source leads to a verified peer.
pub open spec fn received(v: EndpointView, src: Address, frame: Seq<u8>) -> (bool, EndpointView) {
    match held_by(v.peers, v.sources, src) {
        Some(p) => if p.verified && v.started {
            (true, EndpointView { waiting: v.waiting.push((frame, p.id)), ..v })
        } else {
            (false, v)
        },
        None => (false, v),
    }
}

/// The endpoint after the connection of the peer `id` is gone: the peer
/// is unverified and without a source, and its source leads nowhere.
pub open spec fn disconnected(v: EndpointView, id: usize) -> EndpointView {
    match position(v.peers, PeerKey::Id(id)) {
        Some(i) => EndpointView {
            peers: unbound(v.peers, i),
            sources: released(v.sources, v.peers[i].src, id),
            ..v
        },
        None => v,
    }
}

/// The endpoint after the router has asked for the next frame, and what
/// it got: the oldest frame that waits, with the peer that it came
/// from; nothing where none waits; and for an endpoint that does not
/// run, that the connection is lost.
pub open spec fn taken(v: EndpointView) -> (Result<Option<(Seq<u8>, Target)>, NetError>, EndpointView) {
    if !v.started {
        (Err(NetError::ConnectionLost), v)
    } else if v.waiting.len() == 0 {
        (Ok(None), v)
    } else {
        (
            Ok(Some((v.waiting[0].0, Target::Single((v.waiting[0].1 % 0x1_0000) as u16)))),
            EndpointView { waiting: v.waiting.drop_first(), ..v },
        )
    }
}

impl Endpoint {
    /// The peers of the endpoint, in the order of their ids.
    pub open spec fn peers(&self) -> Seq<Peer> {
        self@.peers
    }

    /// The id that the next new peer gets.
    pub open spec fn next_id(&self) -> int {
        self@.next_id
    }

    /// The mode in which the endpoint runs.
    pub open spec fn current_mode(&self) -> Mode {
        self@.mode
    }

    /// Whether the endpoint was started.
    pub open spec fn started(&self) -> bool {
        self@.started
    }

    /// The frames that wait for the router, oldest first, each with the
    /// id of the peer that it came from.
    pub open spec fn waiting(&self) -> Seq<(Seq<u8>, usize)> {
        self@.waiting
    }

    /// Create a new endpoint: static, without peers, not started
    pub fn new() -> (r: Self)
        ensures
            r@ == (EndpointView {
                mode: Mode::Static,
                peers: Seq::empty(),
                next_id: 0,
                sources: Map::empty(),
                started: false,
                waiting: Seq::empty(),
            }),
    {
        Endpoint { mode: Mode::Static, peers: PeerList::new(), inbox: None }
    }

    /// Set the runtime mode
    pub fn mode(&mut self, mode: Mode)
        ensures
            final(self)@ == (EndpointView { mode, ..old(self)@ }),
    {
        self.mode = mode;
    }

    /// How many peers can still be taken in.
    pub fn ids_left(&self) -> (r: usize)
        ensures
            r == usize::MAX - self.next_id(),
    {
        self.peers.ids_left()
    }

    /// Load a set of peers
    ///
    /// The peers that were added, and all that were known before, come
    /// back for the socket to connect to, if the endpoint runs already.
    /// Addresses that were known already are refused, together.
    pub fn load_peers(&mut self, peers: Vec<Address>) -> (r: Result<Vec<(usize, Address)>, PeerErrs>)
        requires
            old(self).next_id() + peers.len() <= usize::MAX,
        ensures
            ({
                let l = loaded(old(self).peers(), old(self).next_id(), peers@);
                &&& final(self)@ == (EndpointView { peers: l.peers, next_id: l.next, ..old(self)@ })
                &&& match r {
                    Ok(known) => l.refused.len() == 0 && known@ == if old(self).started() {
                        l.peers.map_values(|p: Peer| (p.id, p.dst))
                    } else {
                        Seq::<(usize, Address)>::empty()
                    },
                    Err(e) => l.refused.len() > 0 && e.peers@ == l.refused,
                }
            }),
    {
        match self.peers.load(peers) {
            Err(e) => Err(e),
            Ok(()) => {
                if self.inbox.is_some() {
                    Ok(self.peers.all_known())
                } else {
                    Ok(Vec::new())
                }
            },
        }
    }

    /// Starts the endpoint, if it does not run yet: the inbox is set
    /// up, and the peers come back for the socket to connect to.
    pub fn start(&mut self) -> (r: Vec<(usize, Address)>)
        ensures
            final(self)@ == (EndpointView { started: true, ..old(self)@ }),
            r@ == old(self).peers().map_values(|p: Peer| (p.id, p.dst)),
    {
        if self.inbox.is_none() {
            self.inbox = Some(Vec::new());
            assert(self@.waiting =~= old(self)@.waiting);
        }
        self.peers.all_known()
    }

    /// A soft cap on the size of a frame; `0` means that there is none.
    pub fn size_hint(&self) -> (r: usize)
        ensures
            r == 0,
    {
        0
    }

    /// Where `frame` is to be sent for it to reach `target`
    ///
    /// A single peer has to be known and verified, or the connection
    /// counts as lost. A flood goes to every verified peer.
    pub fn send(&self, frame: &Frame, target: Target) -> (r: Result<Vec<Address>, NetError>)
        ensures
            match r {
                Ok(to) => routed(self.peers(), target) == Ok::<Seq<Address>, NetError>(to@),
                Err(e) => routed(self.peers(), target) == Err::<Seq<Address>, NetError>(e),
            },
    {
        match target {
            Target::Single(t) => match self.peers.peer_with_id(t as usize) {
                Some(p) => {
                    if p.verified {
                        let mut to: Vec<Address> = Vec::new();
                        to.push(p.dst);
                        assert(to@ =~= seq![p.dst]);
                        Ok(to)
                    } else {
                        Err(NetError::ConnectionLost)
                    }
                },
                None => Err(NetError::ConnectionLost),
            },
            Target::Flood => {
                let known = self.peers.all_peers();
                let mut to: Vec<Address> = Vec::new();
                let mut i: usize = 0;
                while i < known.len()
                    invariant
                        i <= known.len(),
                        known@ == self.peers(),
                        to@ == verified_dsts(known@.take(i as int)),
                    decreases known.len() - i,
                {
                    assert(known@.take(i + 1).drop_last() =~= known@.take(i as int));
                    assert(known@.take(i + 1).last() == known@[i as int]);
                    if known[i].verified {
                        to.push(known[i].dst);
                    }
                    i += 1;
                }
                assert(known@.take(i as int) =~= known@);
                Ok(to)
            },
        }
    }

    /// A connection from `src` has introduced itself with the port that
    /// its sender listens on. The id of the peer that it belongs to
    /// comes back; `None` means that the connection is to be closed.
    pub fn hello(&mut self, src: &Address, port: u16) -> (r: Option<usize>)
        requires
            old(self).next_id() < usize::MAX,
        ensures
            (r, final(self)@) == greeted(old(self)@, *src, port),
    {
        self.peers.add_src_in_mode(src, port, self.mode)
    }

    /// A frame has come in on the connection from `src`. It is put into
    /// the inbox if the endpoint runs and the source leads to a
    /// verified peer; if not, it is dropped, and `false` comes back.
    pub fn receive(&mut self, src: &Address, frame: Frame) -> (r: bool)
        ensures
            (r, final(self)@) == received(old(self)@, *src, frame.0@),
    {
        let from = match self.peers.holder(src) {
            Some(p) => {
                if p.verified {
                    Some(p.id)
                } else {
                    None
                }
            },
            None => None,
        };
        match from {
            None => false,
            Some(id) => {
                let mut inbox: Option<Vec<(Frame, usize)>> = None;
                std::mem::swap(&mut self.inbox, &mut inbox);
                match inbox {
                    None => false,
                    Some(q) => {
                        let mut q = q;
                        let ghost before = q@.map_values(|e: (Frame, usize)| (e.0.0@, e.1));
                        q.push((frame, id));
                        assert(q@.map_values(|e: (Frame, usize)| (e.0.0@, e.1)) =~= before.push(
                            (frame.0@, id),
                        ));
                        self.inbox = Some(q);
                        true
                    },
                }
            },
        }
    }

    /// A peer's connection is gone: the peer is unverified again.
    pub fn disconnect(&mut self, id: usize)
        ensures
            final(self)@ == disconnected(old(self)@, id),
    {
        self.peers.disconnect(id);
    }

    /// The next frame that has come in, with the peer that it came from
    ///
    /// `Ok(None)` means that no frame waits: the caller waits for the
    /// socket. An endpoint that was not started has lost its connection.
    pub fn next(&mut self) -> (r: Result<Option<(Frame, Target)>, NetError>)
        ensures
            final(self)@ == taken(old(self)@).1,
            match r {
                Ok(Some((frame, from))) => taken(old(self)@).0 == Ok::<
                    Option<(Seq<u8>, Target)>,
                    NetError,
                >(Some((frame.0@, from))),
                Ok(None) => taken(old(self)@).0 == Ok::<Option<(Seq<u8>, Target)>, NetError>(None),
                Err(e) => taken(old(self)@).0 == Err::<Option<(Seq<u8>, Target)>, NetError>(e),
            },
    {
        let mut inbox: Option<Vec<(Frame, usize)>> = None;
        std::mem::swap(&mut self.inbox, &mut inbox);
        match inbox {
            None => Err(NetError::ConnectionLost),
            Some(q) => {
                let mut q = q;
                if q.len() == 0 {
                    self.inbox = Some(q);
                    Ok(None)
                } else {
                    let ghost before = q@.map_values(|e: (Frame, usize)| (e.0.0@, e.1));
                    let (frame, id) = q.remove(0);
                    assert(q@.map_values(|e: (Frame, usize)| (e.0.0@, e.1)) =~= before.drop_first());
                    self.inbox = Some(q);
                    Ok(Some((frame, Target::Single((id % 0x1_0000) as u16))))
                }
            },
        }
    }
}

} // verus!
