//! Peer tracking
//!
//! A peer is a remote node that this endpoint knows a destination address
//! of. It starts out unverified; it becomes valid when a connection comes
//! in from its address and introduces itself with the port that the peer
//! listens on, and it falls back when that connection is lost.

use vstd::prelude::*;

verus! {

/// The address of a host.
#[derive(Clone, Copy, Debug, PartialEq, Eq, Hash, Structural)]
pub enum IpAddress {
    /// The four bytes of an IPv4 address as one number, first byte highest.
    V4(u32),
    /// The sixteen bytes of an IPv6 address as one number, first byte highest.
    V6(u128),
}

/// A socket address: a host and a port.
#[derive(Clone, Copy, Debug, PartialEq, Eq, Hash, Structural)]
pub struct Address {
    pub ip: IpAddress,
    pub port: u16,
}

/// What the table holds of one peer.
#[derive(Clone, Copy, Debug, PartialEq, Eq)]
pub struct Peer {
    /// The number under which the router knows the peer.
    pub id: usize,
    /// Where the peer listens.
    pub dst: Address,
    /// Where the peer's connection to us comes from, while there is one.
    pub src: Option<Address>,
    /// Whether that connection has introduced itself.
    pub verified: bool,
}

/// How far a source address is trusted.
#[derive(Clone, Copy, Debug, PartialEq, Eq, Structural)]
pub enum PeerState {
    /// We're friends actually
    Valid,
    /// New connection, but we know the IP
    Unverified,
    /// Unknown IP, ignore
    Unknown,
}

/// The addresses that `load` refused because the table held them already.
#[derive(Clone, Debug, PartialEq, Eq)]
pub struct PeerErrs {
    pub peers: Vec<Address>,
}

/// By what a peer is looked up.
#[derive(Clone, Copy, Debug, PartialEq, Eq, Structural)]
pub enum PeerKey {
    Id(usize),
    Dst(Address),
}

/// Whether `p` is the peer that `k` asks for.
pub open spec fn has_key(p: Peer, k: PeerKey) -> bool {
    match k {
        PeerKey::Id(id) => p.id == id,
        PeerKey::Dst(a) => p.dst == a,
    }
}

/// Where in `peers` the peer with key `k` stands.
pub open spec fn position(peers: Seq<Peer>, k: PeerKey) -> Option<int> {
    if exists|i: int| 0 <= i < peers.len() && has_key(#[trigger] peers[i], k) {
        Some(choose|i: int| 0 <= i < peers.len() && has_key(#[trigger] peers[i], k))
    } else {
        None
    }
}

/// The peer with key `k`.
pub open spec fn lookup(peers: Seq<Peer>, k: PeerKey) -> Option<Peer> {
    match position(peers, k) {
        Some(i) => Some(peers[i]),
        None => None,
    }
}

/// What holds of every table: the peers stand in the order of their ids,
/// every id is below the next one to be given out, no two peers share a
/// destination, and a verified peer has a source.
pub open spec fn table_ok(peers: Seq<Peer>, next: int) -> bool {
    &&& forall|i: int, j: int|
        #![trigger peers[i], peers[j]]
        0 <= i < j < peers.len() ==> peers[i].id < peers[j].id
    &&& forall|i: int| 0 <= i < peers.len() ==> (#[trigger] peers[i]).id < next
    &&& forall|i: int, j: int|
        #![trigger peers[i], peers[j]]
        0 <= i < j < peers.len() ==> peers[i].dst != peers[j].dst
    &&& forall|i: int| 0 <= i < peers.len() && (#[trigger] peers[i]).verified ==> peers[i].src is Some
    &&& 0 <= next <= usize::MAX
}

/// In a table, a key names at most one peer.
pub proof fn lemma_position_unique(peers: Seq<Peer>, next: int, k: PeerKey, i: int)
    requires
        table_ok(peers, next),
        0 <= i < peers.len(),
        has_key(peers[i], k),
    ensures
        position(peers, k) == Some(i),
        lookup(peers, k) == Some(peers[i]),
{
    let j = choose|j: int| 0 <= j < peers.len() && has_key(#[trigger] peers[j], k);
    if j < i {
        assert(peers[j].id < peers[i].id);
        assert(peers[j].dst != peers[i].dst);
    } else if i < j {
        assert(peers[i].id < peers[j].id);
        assert(peers[i].dst != peers[j].dst);
    }
}

/// The state of a source address: valid if a peer at its host is
/// verified, unverified if a peer is known at its host, unknown if none.
pub open spec fn state_of(peers: Seq<Peer>, ip: IpAddress) -> PeerState {
    if exists|i: int| 0 <= i < peers.len() && (#[trigger] peers[i]).dst.ip == ip && peers[i].verified {
        PeerState::Valid
    } else if exists|i: int| 0 <= i < peers.len() && (#[trigger] peers[i]).dst.ip == ip {
        PeerState::Unverified
    } else {
        PeerState::Unknown
    }
}

/// A table and what `load` had to refuse.
pub struct Loaded {
    pub peers: Seq<Peer>,
    pub next: int,
    pub refused: Seq<Address>,
}

/// A peer as `load` makes it.
pub open spec fn fresh(id: int, dst: Address) -> Peer {
    Peer { id: id as usize, dst, src: None, verified: false }
}

/// Loading `addrs` one after the other: an address that the table holds
/// already is refused, any other becomes a new peer with the next id.
pub open spec fn loaded(peers: Seq<Peer>, next: int, addrs: Seq<Address>) -> Loaded
    decreases addrs.len(),
{
    if addrs.len() == 0 {
        Loaded { peers, next, refused: Seq::empty() }
    } else {
        let before = loaded(peers, next, addrs.drop_last());
        if position(before.peers, PeerKey::Dst(addrs.last())) is Some {
            Loaded { refused: before.refused.push(addrs.last()), ..before }
        } else {
            Loaded {
                peers: before.peers.push(fresh(before.next, addrs.last())),
                next: before.next + 1,
                refused: before.refused,
            }
        }
    }
}

/// The table after a connection from `src` was matched to the peer at
/// place `i`: that peer has the source and is verified, and every other
/// peer is as it was.
pub open spec fn bound(peers: Seq<Peer>, i: int, src: Address) -> Seq<Peer> {
    peers.update(i, Peer { src: Some(src), verified: true, ..peers[i] })
}

/// Which peer each source leads to: the sources that are bound, each
/// with the id of the peer that was bound to it last.
pub type Sources = Map<Address, usize>;

/// The sources after the peer `id`, which had the source `src`, has let
/// go of it: the source leads nowhere, unless it leads to another peer
/// by now.
pub open spec fn released(sources: Sources, src: Option<Address>, id: usize) -> Sources {
    match src {
        Some(a) => if sources.contains_key(a) && sources[a] == id {
            sources.remove(a)
        } else {
            sources
        },
        None => sources,
    }
}

/// The sources after the peer `p` was bound to `src`: it lets go of the
/// source that it had, and `src` leads to it.
pub open spec fn rebound(sources: Sources, p: Peer, src: Address) -> Sources {
    released(sources, p.src, p.id).insert(src, p.id)
}

/// The peer that a source leads to: the one that was bound to it last,
/// as long as it is in the table and still has the source.
pub open spec fn held_by(peers: Seq<Peer>, sources: Sources, src: Address) -> Option<Peer> {
    if sources.contains_key(src) {
        match lookup(peers, PeerKey::Id(sources[src])) {
            Some(p) => if p.src == Some(src) {
                Some(p)
            } else {
                None
            },
            None => None,
        }
    } else {
        None
    }
}

spec fn link_at(links: Seq<(Address, usize)>, a: Address, i: int) -> bool {
    0 <= i < links.len() && links[i].0 == a
}

spec fn source_map(links: Seq<(Address, usize)>) -> Sources {
    Map::new(
        |a: Address| exists|i: int| link_at(links, a, i),
        |a: Address| links[choose|i: int| link_at(links, a, i)].1,
    )
}

spec fn links_ok(links: Seq<(Address, usize)>) -> bool {
    forall|i: int, j: int|
        #![trigger links[i], links[j]]
        0 <= i < j < links.len() ==> links[i].0 != links[j].0
}

proof fn lemma_link(links: Seq<(Address, usize)>, i: int)
    requires
        links_ok(links),
        0 <= i < links.len(),
    ensures
        source_map(links).contains_key(links[i].0),
        source_map(links)[links[i].0] == links[i].1,
{
    let a = links[i].0;
    assert(link_at(links, a, i));
    let j = choose|j: int| link_at(links, a, j);
    if j < i {
        assert(links[j].0 != links[i].0);
    } else if i < j {
        assert(links[i].0 != links[j].0);
    }
}

proof fn lemma_links_update(links: Seq<(Address, usize)>, p: int, id: usize)
    requires
        links_ok(links),
        0 <= p < links.len(),
    ensures
        links_ok(links.update(p, (links[p].0, id))),
        source_map(links.update(p, (links[p].0, id))) == source_map(links).insert(links[p].0, id),
{
    let a = links[p].0;
    let n = links.update(p, (a, id));
    assert forall|x: int, y: int| #![trigger n[x], n[y]] 0 <= x < y < n.len() implies n[x].0
        != n[y].0 by {
        assert(links[x].0 != links[y].0);
    }
    assert forall|k: Address| #[trigger]
        source_map(n).contains_key(k) <==> source_map(links).insert(a, id).contains_key(k) by {
        if exists|j: int| link_at(n, k, j) {
            let j = choose|j: int| link_at(n, k, j);
            assert(link_at(links, k, j));
        }
        if exists|j: int| link_at(links, k, j) {
            let j = choose|j: int| link_at(links, k, j);
            assert(link_at(n, k, j));
        }
        if k == a {
            assert(link_at(n, k, p));
        }
    }
    assert forall|k: Address| #[trigger] source_map(n).contains_key(k) implies source_map(n)[k]
        == source_map(links).insert(a, id)[k] by {
        let j = choose|j: int| link_at(n, k, j);
        lemma_link(n, j);
        if j != p {
            assert(link_at(links, k, j));
            lemma_link(links, j);
            if j < p {
                assert(links[j].0 != links[p].0);
            } else {
                assert(links[p].0 != links[j].0);
            }
        }
    }
    assert(source_map(n) =~= source_map(links).insert(a, id));
}

proof fn lemma_links_push(links: Seq<(Address, usize)>, a: Address, id: usize)
    requires
        links_ok(links),
        !source_map(links).contains_key(a),
    ensures
        links_ok(links.push((a, id))),
        source_map(links.push((a, id))) == source_map(links).insert(a, id),
{
    let n = links.push((a, id));
    assert forall|x: int, y: int| #![trigger n[x], n[y]] 0 <= x < y < n.len() implies n[x].0
        != n[y].0 by {
        if y < links.len() {
            assert(links[x].0 != links[y].0);
        } else if links[x].0 == a {
            assert(link_at(links, a, x));
        }
    }
    assert forall|k: Address| #[trigger]
        source_map(n).contains_key(k) <==> source_map(links).insert(a, id).contains_key(k) by {
        if exists|j: int| link_at(n, k, j) {
            let j = choose|j: int| link_at(n, k, j);
            if j < links.len() {
                assert(link_at(links, k, j));
            }
        }
        if exists|j: int| link_at(links, k, j) {
            let j = choose|j: int| link_at(links, k, j);
            assert(link_at(n, k, j));
        }
        if k == a {
            assert(link_at(n, k, links.len() as int));
        }
    }
    assert forall|k: Address| #[trigger] source_map(n).contains_key(k) implies source_map(n)[k]
        == source_map(links).insert(a, id)[k] by {
        let j = choose|j: int| link_at(n, k, j);
        lemma_link(n, j);
        if j < links.len() {
            assert(link_at(links, k, j));
            lemma_link(links, j);
        }
    }
    assert(source_map(n) =~= source_map(links).insert(a, id));
}

proof fn lemma_links_remove(links: Seq<(Address, usize)>, p: int)
    requires
        links_ok(links),
        0 <= p < links.len(),
    ensures
        links_ok(links.remove(p)),
        source_map(links.remove(p)) == source_map(links).remove(links[p].0),
{
    let n = links.remove(p);
    assert forall|x: int, y: int| #![trigger n[x], n[y]] 0 <= x < y < n.len() implies n[x].0
        != n[y].0 by {
        let x0 = if x < p { x } else { x + 1 };
        let y0 = if y < p { y } else { y + 1 };
        assert(n[x] == links[x0] && n[y] == links[y0]);
        assert(links[x0].0 != links[y0].0);
    }
    assert forall|k: Address| #[trigger]
        source_map(n).contains_key(k) <==> source_map(links).remove(links[p].0).contains_key(
            k,
        ) by {
        if exists|j: int| link_at(n, k, j) {
            let j = choose|j: int| link_at(n, k, j);
            let j0 = if j < p { j } else { j + 1 };
            assert(link_at(links, k, j0));
            if j0 < p {
                assert(links[j0].0 != links[p].0);
            } else {
                assert(links[p].0 != links[j0].0);
            }
        }
        if k != links[p].0 && exists|j: int| link_at(links, k, j) {
            let j = choose|j: int| link_at(links, k, j);
            if j < p {
                assert(link_at(n, k, j));
            } else {
                assert(link_at(n, k, j - 1));
            }
        }
    }
    assert forall|k: Address| #[trigger] source_map(n).contains_key(k) implies source_map(n)[k]
        == source_map(links).remove(links[p].0)[k] by {
        let j = choose|j: int| link_at(n, k, j);
        lemma_link(n, j);
        let j0 = if j < p { j } else { j + 1 };
        assert(link_at(links, k, j0));
        lemma_link(links, j0);
    }
    assert(source_map(n) =~= source_map(links).remove(links[p].0));
}

/// The table after the peer at place `i` lost its connection.
pub open spec fn unbound(peers: Seq<Peer>, i: int) -> Seq<Peer> {
    peers.update(i, Peer { src: None, verified: false, ..peers[i] })
}

/// Loading keeps a table a table, keeps the peers it had, and leaves
/// every loaded address in it.
pub proof fn lemma_loaded(peers: Seq<Peer>, next: int, addrs: Seq<Address>)
    requires
        table_ok(peers, next),
        next + addrs.len() <= usize::MAX,
    ensures
        ({
            let l = loaded(peers, next, addrs);
            &&& table_ok(l.peers, l.next)
            &&& next <= l.next <= next + addrs.len()
            &&& peers.len() <= l.peers.len()
            &&& l.peers.subrange(0, peers.len() as int) == peers
            &&& forall|k: int|
                0 <= k < addrs.len() ==> position(l.peers, PeerKey::Dst(#[trigger] addrs[k])) is Some
            &&& forall|i: int|
                peers.len() <= i < l.peers.len() ==> !(#[trigger] l.peers[i]).verified
                    && l.peers[i].src is None
        }),
    decreases addrs.len(),
{
    let l = loaded(peers, next, addrs);
    if addrs.len() == 0 {
        assert(l.peers.subrange(0, peers.len() as int) =~= peers);
    } else {
        let before = loaded(peers, next, addrs.drop_last());
        lemma_loaded(peers, next, addrs.drop_last());
        let a = addrs.last();
        if position(before.peers, PeerKey::Dst(a)) is Some {
        } else {
            let p = fresh(before.next, a);
            assert forall|i: int| 0 <= i < before.peers.len() implies (#[trigger] before.peers[i]).dst
                != a by {
                if before.peers[i].dst == a {
                    assert(has_key(before.peers[i], PeerKey::Dst(a)));
                }
            }
            assert(l.peers.subrange(0, peers.len() as int) =~= before.peers.subrange(
                0,
                peers.len() as int,
            ));
            assert(has_key(l.peers[before.peers.len() as int], PeerKey::Dst(a)));
        }
        assert forall|k: int| 0 <= k < addrs.len() implies position(
            l.peers,
            PeerKey::Dst(#[trigger] addrs[k]),
        ) is Some by {
            if k < addrs.len() - 1 {
                assert(addrs.drop_last()[k] == addrs[k]);
                let i = position(before.peers, PeerKey::Dst(addrs[k]))->0;
                assert(has_key(l.peers[i], PeerKey::Dst(addrs[k])));
            } else if position(before.peers, PeerKey::Dst(a)) is Some {
                let i = position(before.peers, PeerKey::Dst(a))->0;
                assert(has_key(l.peers[i], PeerKey::Dst(a)));
            }
        }
    }
}

/// Matching a connection keeps a table a table.
pub proof fn lemma_bound(peers: Seq<Peer>, next: int, i: int, src: Address)
    requires
        table_ok(peers, next),
        0 <= i < peers.len(),
    ensures
        table_ok(bound(peers, i, src), next),
        lookup(bound(peers, i, src), PeerKey::Id(peers[i].id)) == Some(bound(peers, i, src)[i]),
        forall|k: PeerKey| position(bound(peers, i, src), k) == position(peers, k),
        forall|sources: Sources|
            held_by(bound(peers, i, src), #[trigger] rebound(sources, peers[i], src), src) == Some(
                bound(peers, i, src)[i],
            ),
{
    let b = bound(peers, i, src);
    assert forall|x: int, y: int| #![trigger b[x], b[y]] 0 <= x < y < b.len() implies b[x].id
        < b[y].id && b[x].dst != b[y].dst by {
        assert(peers[x].id < peers[y].id);
        assert(peers[x].dst != peers[y].dst);
    }
    assert forall|x: int| 0 <= x < b.len() implies (#[trigger] b[x]).id < next && (b[x].verified
        ==> b[x].src is Some) by {
        assert(peers[x].id < next);
    }
    assert(has_key(b[i], PeerKey::Id(peers[i].id)));
    lemma_position_unique(b, next, PeerKey::Id(peers[i].id), i);
    assert forall|k: PeerKey| position(b, k) == position(peers, k) by {
        assert forall|j: int| 0 <= j < peers.len() implies has_key(#[trigger] b[j], k) == has_key(
            peers[j],
            k,
        ) by {}
        if exists|j: int| 0 <= j < peers.len() && has_key(#[trigger] peers[j], k) {
            let j = choose|j: int| 0 <= j < peers.len() && has_key(#[trigger] peers[j], k);
            assert(has_key(b[j], k));
            lemma_position_unique(peers, next, k, j);
            lemma_position_unique(b, next, k, j);
        } else {
            assert forall|j: int| 0 <= j < b.len() implies !has_key(#[trigger] b[j], k) by {
                assert(!has_key(peers[j], k));
            }
        }
    }
}

/// Losing a connection keeps a table a table.
pub proof fn lemma_unbound(peers: Seq<Peer>, next: int, i: int)
    requires
        table_ok(peers, next),
        0 <= i < peers.len(),
    ensures
        table_ok(unbound(peers, i), next),
{
    let u = unbound(peers, i);
    assert forall|x: int, y: int| #![trigger u[x], u[y]] 0 <= x < y < u.len() implies u[x].id
        < u[y].id && u[x].dst != u[y].dst by {
        assert(peers[x].id < peers[y].id);
        assert(peers[x].dst != peers[y].dst);
    }
    assert forall|x: int| 0 <= x < u.len() implies (#[trigger] u[x]).id < next && (u[x].verified
        ==> u[x].src is Some) by {
        assert(peers[x].id < next);
    }
}

/// Taking a peer out keeps a table a table.
pub proof fn lemma_removed(peers: Seq<Peer>, next: int, i: int)
    requires
        table_ok(peers, next),
        0 <= i < peers.len(),
    ensures
        table_ok(peers.remove(i), next),
        position(peers.remove(i), PeerKey::Id(peers[i].id)) is None,
{
    let r = peers.remove(i);
    assert forall|x: int, y: int| #![trigger r[x], r[y]] 0 <= x < y < r.len() implies r[x].id
        < r[y].id && r[x].dst != r[y].dst by {
        let x0 = if x < i { x } else { x + 1 };
        let y0 = if y < i { y } else { y + 1 };
        assert(r[x] == peers[x0] && r[y] == peers[y0]);
        assert(peers[x0].id < peers[y0].id);
    }
    assert forall|x: int| 0 <= x < r.len() implies (#[trigger] r[x]).id < next && (r[x].verified
        ==> r[x].src is Some) by {
        let x0 = if x < i { x } else { x + 1 };
        assert(r[x] == peers[x0]);
    }
    assert forall|x: int| 0 <= x < r.len() implies !has_key(#[trigger] r[x], PeerKey::Id(peers[i].id)) by {
        let x0 = if x < i { x } else { x + 1 };
        assert(r[x] == peers[x0]);
        if x0 < i {
            assert(peers[x0].id < peers[i].id);
        } else {
            assert(peers[i].id < peers[x0].id);
        }
    }
}

/// A peer that was loaded and then matched by a connection from its host
/// with its port is valid, and the connection's source leads to it,
/// whatever the table and the sources were before.
pub proof fn lemma_load_then_add_src(
    peers: Seq<Peer>,
    next: int,
    sources: Sources,
    p: Address,
    src: Address,
)
    requires
        table_ok(peers, next),
        next < usize::MAX,
        src.ip == p.ip,
    ensures
        ({
            let l = loaded(peers, next, seq![p]);
            let dst = Address { ip: src.ip, port: p.port };
            &&& position(l.peers, PeerKey::Dst(dst)) matches Some(i)
            &&& state_of(bound(l.peers, i, src), src.ip) == PeerState::Valid
            &&& held_by(bound(l.peers, i, src), rebound(sources, l.peers[i], src), src) matches Some(
                found,
            )
            &&& found.id == l.peers[i].id
            &&& found.dst == p
            &&& found.src == Some(src)
            &&& found.verified
        }),
{
    let l = loaded(peers, next, seq![p]);
    lemma_loaded(peers, next, seq![p]);
    assert(seq![p][0] == p);
    let i = position(l.peers, PeerKey::Dst(p))->0;
    lemma_bound(l.peers, l.next, i, src);
    let b = bound(l.peers, i, src);
    assert(b[i].dst.ip == src.ip && b[i].verified);
    assert(held_by(b, rebound(sources, l.peers[i], src), src) == Some(b[i]));
}

/// The table of the peers of an endpoint.
#[derive(Debug)]
pub struct PeerList {
    peers: Vec<Peer>,
    curr: usize,
    links: Vec<(Address, usize)>,
}

impl PeerList {
    /// The peers in the order of their ids.
    pub closed spec fn peers(&self) -> Seq<Peer> {
        self.peers@
    }

    /// The id that the next new peer gets.
    pub closed spec fn next_id(&self) -> int {
        self.curr as int
    }

    /// Which peer each bound source leads to.
    pub closed spec fn sources(&self) -> Sources {
        source_map(self.links@)
    }

    /// The table keeps each source once.
    pub closed spec fn links_distinct(&self) -> bool {
        links_ok(self.links@)
    }

    #[verifier::type_invariant]
    pub open spec fn well_formed(&self) -> bool {
        table_ok(self.peers(), self.next_id()) && self.links_distinct()
    }

    /// Create a new empty peer list
    pub fn new() -> (r: Self)
        ensures
            r.peers() == Seq::<Peer>::empty(),
            r.next_id() == 0,
            r.sources() == Map::<Address, usize>::empty(),
    {
        let r = PeerList { peers: Vec::new(), curr: 0, links: Vec::new() };
        assert(r.sources() =~= Map::<Address, usize>::empty());
        r
    }

    /// How many ids are left to give out.
    pub fn ids_left(&self) -> (r: usize)
        ensures
            r == usize::MAX - self.next_id(),
    {
        usize::MAX - self.curr
    }

    fn find(&self, k: PeerKey) -> (r: Option<usize>)
        ensures
            match r {
                Some(i) => position(self.peers(), k) == Some(i as int) && i < self.peers().len(),
                None => position(self.peers(), k) is None,
            },
    {
        proof {
            use_type_invariant(self);
        }
        let mut i: usize = 0;
        while i < self.peers.len()
            invariant
                i <= self.peers.len(),
                table_ok(self.peers@, self.curr as int),
                forall|j: int| 0 <= j < i ==> !has_key(#[trigger] self.peers@[j], k),
            decreases self.peers.len() - i,
        {
            let p = self.peers[i];
            let hit = match k {
                PeerKey::Id(id) => p.id == id,
                PeerKey::Dst(a) => p.dst == a,
            };
            if hit {
                proof {
                    lemma_position_unique(self.peers@, self.curr as int, k, i as int);
                }
                return Some(i);
            }
            i += 1;
        }
        None
    }

    /// Every known peer with the address it listens on, in the order of
    /// the ids.
    pub fn all_known(&self) -> (r: Vec<(usize, Address)>)
        ensures
            r@ == self.peers().map_values(|p: Peer| (p.id, p.dst)),
    {
        let mut out: Vec<(usize, Address)> = Vec::new();
        let mut i: usize = 0;
        while i < self.peers.len()
            invariant
                i <= self.peers.len(),
                out@ == self.peers@.take(i as int).map_values(|p: Peer| (p.id, p.dst)),
            decreases self.peers.len() - i,
        {
            let p = self.peers[i];
            out.push((p.id, p.dst));
            assert(self.peers@.take(i + 1).map_values(|p: Peer| (p.id, p.dst)) =~= self.peers@.take(
                i as int,
            ).map_values(|p: Peer| (p.id, p.dst)).push((p.id, p.dst)));
            i += 1;
        }
        assert(self.peers@.take(i as int) =~= self.peers@);
        out
    }

    /// A copy of the table, in the order of the ids.
    pub fn all_peers(&self) -> (r: Vec<Peer>)
        ensures
            r@ == self.peers(),
    {
        let mut out: Vec<Peer> = Vec::new();
        let mut i: usize = 0;
        while i < self.peers.len()
            invariant
                i <= self.peers.len(),
                out@ == self.peers@.take(i as int),
            decreases self.peers.len() - i,
        {
            out.push(self.peers[i]);
            assert(self.peers@.take(i + 1) =~= self.peers@.take(i as int).push(self.peers@[i as int]));
            i += 1;
        }
        assert(self.peers@.take(i as int) =~= self.peers@);
        out
    }

    /// Get the state of a peer (unknown, unverified, or valid)
    pub fn peer_state(&self, src: &Address) -> (r: PeerState)
        ensures
            r == state_of(self.peers(), src.ip),
    {
        let mut known = false;
        let mut i: usize = 0;
        while i < self.peers.len()
            invariant
                i <= self.peers.len(),
                forall|j: int|
                    0 <= j < i ==> !((#[trigger] self.peers@[j]).dst.ip == src.ip
                        && self.peers@[j].verified),
                known == exists|j: int| 0 <= j < i && (#[trigger] self.peers@[j]).dst.ip == src.ip,
            decreases self.peers.len() - i,
        {
            let p = self.peers[i];
            if p.dst.ip == src.ip {
                if p.verified {
                    return PeerState::Valid;
                }
                known = true;
            }
            i += 1;
        }
        if known {
            PeerState::Unverified
        } else {
            PeerState::Unknown
        }
    }

    /// The peer with the given id.
    pub fn peer_with_id(&self, id: usize) -> (r: Option<Peer>)
        ensures
            r == lookup(self.peers(), PeerKey::Id(id)),
    {
        match self.find(PeerKey::Id(id)) {
            Some(i) => Some(self.peers[i]),
            None => None,
        }
    }

    fn link_index(&self, src: &Address) -> (r: Option<usize>)
        ensures
            match r {
                Some(i) => {
                    &&& i < self.links.len()
                    &&& self.links[i as int].0 == *src
                    &&& self.sources().contains_key(*src)
                    &&& self.sources()[*src] == self.links[i as int].1
                },
                None => !self.sources().contains_key(*src),
            },
    {
        proof {
            use_type_invariant(self);
        }
        let mut i: usize = 0;
        while i < self.links.len()
            invariant
                i <= self.links.len(),
                links_ok(self.links@),
                forall|j: int| 0 <= j < i ==> !link_at(self.links@, *src, j),
            decreases self.links.len() - i,
        {
            if self.links[i].0 == *src {
                proof {
                    lemma_link(self.links@, i as int);
                }
                return Some(i);
            }
            i += 1;
        }
        None
    }

    /// The peer that a source leads to: the one that was bound to it
    /// last, as long as it still has it.
    pub fn holder(&self, src: &Address) -> (r: Option<Peer>)
        ensures
            r == held_by(self.peers(), self.sources(), *src),
    {
        match self.link_index(src) {
            None => None,
            Some(i) => match self.peer_with_id(self.links[i].1) {
                None => None,
                Some(p) => {
                    let has = match p.src {
                        Some(s) => s == *src,
                        None => false,
                    };
                    if has {
                        Some(p)
                    } else {
                        None
                    }
                },
            },
        }
    }

    /// Get the ID of a peer with the source socket address
    pub fn get_id_by_src(&self, src: &Address) -> (r: Option<usize>)
        ensures
            match held_by(self.peers(), self.sources(), *src) {
                Some(p) => r == Some(p.id),
                None => r is None,
            },
    {
        match self.holder(src) {
            Some(p) => Some(p.id),
            None => None,
        }
    }

    /// Get the ID of a peer with the destination socket address
    pub fn get_id_by_dst(&self, dst: &Address) -> (r: Option<usize>)
        ensures
            match lookup(self.peers(), PeerKey::Dst(*dst)) {
                Some(p) => r == Some(p.id),
                None => r is None,
            },
    {
        match self.find(PeerKey::Dst(*dst)) {
            Some(i) => Some(self.peers[i].id),
            None => None,
        }
    }

    /// Get the destination address based on the source address
    pub fn get_dst_by_src(&self, src: &Address) -> (r: Option<Address>)
        ensures
            match held_by(self.peers(), self.sources(), *src) {
                Some(p) => r == Some(p.dst),
                None => r is None,
            },
    {
        match self.holder(src) {
            Some(p) => Some(p.dst),
            None => None,
        }
    }

    /// Get the destination address based on the id
    pub fn get_dst_by_id(&self, id: usize) -> (r: Option<Address>)
        ensures
            match lookup(self.peers(), PeerKey::Id(id)) {
                Some(p) => r == Some(p.dst),
                None => r is None,
            },
    {
        match self.find(PeerKey::Id(id)) {
            Some(i) => Some(self.peers[i].dst),
            None => None,
        }
    }

    fn set_link(&mut self, src: Address, id: usize)
        ensures
            final(self).sources() == old(self).sources().insert(src, id),
            final(self).peers() == old(self).peers(),
            final(self).next_id() == old(self).next_id(),
    {
        proof {
            use_type_invariant(&*self);
        }
        let at = self.link_index(&src);
        let mut links: Vec<(Address, usize)> = Vec::new();
        match at {
            Some(i) => {
                proof {
                    lemma_links_update(self.links@, i as int, id);
                }
                std::mem::swap(&mut self.links, &mut links);
                links.set(i, (src, id));
                self.links = links;
            },
            None => {
                proof {
                    lemma_links_push(self.links@, src, id);
                }
                std::mem::swap(&mut self.links, &mut links);
                links.push((src, id));
                self.links = links;
            },
        }
    }

    fn drop_link(&mut self, src: Option<Address>, id: usize)
        ensures
            final(self).sources() == released(old(self).sources(), src, id),
            final(self).peers() == old(self).peers(),
            final(self).next_id() == old(self).next_id(),
    {
        proof {
            use_type_invariant(&*self);
        }
        match src {
            None => {},
            Some(a) => match self.link_index(&a) {
                None => {},
                Some(i) => {
                    if self.links[i].1 == id {
                        proof {
                            lemma_links_remove(self.links@, i as int);
                        }
                        let mut links: Vec<(Address, usize)> = Vec::new();
                        std::mem::swap(&mut self.links, &mut links);
                        let _ = links.remove(i);
                        self.links = links;
                    }
                },
            },
        }
    }

    fn bind(&mut self, at: usize, src: Address)
        requires
            at < old(self).peers().len(),
        ensures
            final(self).peers() == bound(old(self).peers(), at as int, src),
            final(self).sources() == rebound(old(self).sources(), old(self).peers()[at as int], src),
            final(self).next_id() == old(self).next_id(),
    {
        proof {
            use_type_invariant(&*self);
            lemma_bound(self.peers@, self.curr as int, at as int, src);
        }
        let p = self.peers[at];
        self.drop_link(p.src, p.id);
        self.set_link(src, p.id);
        proof {
            use_type_invariant(&*self);
        }
        let mut peers: Vec<Peer> = Vec::new();
        std::mem::swap(&mut self.peers, &mut peers);
        peers.set(at, Peer { id: p.id, dst: p.dst, src: Some(src), verified: true });
        self.peers = peers;
    }

    /// Add the source part of a peer based on the ip and dst port
    ///
    /// The peer that listens on the host of `src`, at `dst_port`, gets
    /// `src` as its source and is verified from then on; its id is
    /// returned. Where no such peer is known, nothing changes.
    pub fn add_src(&mut self, src: &Address, dst_port: u16) -> (r: Option<usize>)
        ensures
            final(self).next_id() == old(self).next_id(),
            match position(old(self).peers(), PeerKey::Dst(Address { ip: src.ip, port: dst_port })) {
                Some(i) => {
                    &&& r == Some(old(self).peers()[i].id)
                    &&& final(self).peers() == bound(old(self).peers(), i, *src)
                    &&& final(self).sources() == rebound(
                        old(self).sources(),
                        old(self).peers()[i],
                        *src,
                    )
                },
                None => {
                    &&& r is None
                    &&& final(self).peers() == old(self).peers()
                    &&& final(self).sources() == old(self).sources()
                },
            },
    {
        let dst = Address { ip: src.ip, port: dst_port };
        match self.find(PeerKey::Dst(dst)) {
            None => None,
            Some(i) => {
                let id = self.peers[i].id;
                self.bind(i, *src);
                Some(id)
            },
        }
    }

    /// As `add_src`, but in dynamic mode a source that matches no known
    /// peer becomes a new peer, verified at once, with the next id.
    pub fn add_src_in_mode(&mut self, src: &Address, dst_port: u16, mode: crate::endpoint::Mode) -> (r: Option<usize>)
        requires
            old(self).next_id() < usize::MAX,
        ensures
            ({
                let dst = Address { ip: src.ip, port: dst_port };
                match position(old(self).peers(), PeerKey::Dst(dst)) {
                    Some(i) => {
                        &&& r == Some(old(self).peers()[i].id)
                        &&& final(self).peers() == bound(old(self).peers(), i, *src)
                        &&& final(self).sources() == rebound(
                            old(self).sources(),
                            old(self).peers()[i],
                            *src,
                        )
                        &&& final(self).next_id() == old(self).next_id()
                    },
                    None => if mode == crate::endpoint::Mode::Dynamic {
                        &&& r == Some(old(self).next_id() as usize)
                        &&& final(self).peers() == bound(
                            old(self).peers().push(fresh(old(self).next_id(), dst)),
                            old(self).peers().len() as int,
                            *src,
                        )
                        &&& final(self).sources() == rebound(
                            old(self).sources(),
                            fresh(old(self).next_id(), dst),
                            *src,
                        )
                        &&& final(self).next_id() == old(self).next_id() + 1
                    } else {
                        &&& r is None
                        &&& final(self).peers() == old(self).peers()
                        &&& final(self).sources() == old(self).sources()
                        &&& final(self).next_id() == old(self).next_id()
                    },
                }
            }),
    {
        let dst = Address { ip: src.ip, port: dst_port };
        match self.find(PeerKey::Dst(dst)) {
            Some(i) => {
                let id = self.peers[i].id;
                self.bind(i, *src);
                Some(id)
            },
            None => {
                if mode.dynamic() {
                    let id = self.curr;
                    let at = self.peers.len();
                    self.append(dst);
                    self.bind(at, *src);
                    Some(id)
                } else {
                    None
                }
            },
        }
    }

    fn append(&mut self, dst: Address)
        requires
            old(self).next_id() < usize::MAX,
            position(old(self).peers(), PeerKey::Dst(dst)) is None,
        ensures
            final(self).peers() == old(self).peers().push(fresh(old(self).next_id(), dst)),
            final(self).next_id() == old(self).next_id() + 1,
            final(self).sources() == old(self).sources(),
    {
        proof {
            use_type_invariant(&*self);
        }
        let ghost before = self.peers@;
        let id = self.curr;
        let mut peers: Vec<Peer> = Vec::new();
        std::mem::swap(&mut self.peers, &mut peers);
        self.curr = id + 1;
        peers.push(Peer { id, dst, src: None, verified: false });
        proof {
            let after = peers@;
            assert forall|i: int| 0 <= i < before.len() implies (#[trigger] before[i]).dst != dst by {
                if before[i].dst == dst {
                    assert(has_key(before[i], PeerKey::Dst(dst)));
                }
            }
            assert forall|x: int, y: int| #![trigger after[x], after[y]] 0 <= x < y < after.len() implies after[x].id < after[y].id && after[x].dst != after[y].dst by {
                if y < before.len() {
                    assert(before[x].id < before[y].id);
                    assert(before[x].dst != before[y].dst);
                } else {
                    assert(before[x].id < id);
                    assert(before[x].dst != dst);
                }
            }
            assert forall|x: int| 0 <= x < after.len() implies (#[trigger] after[x]).id < id + 1 && (
            after[x].verified ==> after[x].src is Some) by {
                if x < before.len() {
                    assert(before[x].id < id);
                }
            }
        }
        self.peers = peers;
    }

    /// The peer with the given id has lost its connection: it keeps its
    /// id and its destination, and is unverified again, without a source.
    pub fn disconnect(&mut self, id: usize)
        ensures
            final(self).next_id() == old(self).next_id(),
            match position(old(self).peers(), PeerKey::Id(id)) {
                Some(i) => {
                    &&& final(self).peers() == unbound(old(self).peers(), i)
                    &&& final(self).sources() == released(
                        old(self).sources(),
                        old(self).peers()[i].src,
                        id,
                    )
                },
                None => {
                    &&& final(self).peers() == old(self).peers()
                    &&& final(self).sources() == old(self).sources()
                },
            },
    {
        proof {
            use_type_invariant(&*self);
        }
        match self.find(PeerKey::Id(id)) {
            None => {},
            Some(i) => {
                proof {
                    lemma_unbound(self.peers@, self.curr as int, i as int);
                }
                let p = self.peers[i];
                self.drop_link(p.src, p.id);
                proof {
                    use_type_invariant(&*self);
                }
                let mut peers: Vec<Peer> = Vec::new();
                std::mem::swap(&mut self.peers, &mut peers);
                peers.set(i, Peer { id: p.id, dst: p.dst, src: None, verified: false });
                self.peers = peers;
            },
        }
    }

    /// Remove the peer with the given ID, or do nothing if no such peer exists.
    pub fn del_peer(&mut self, id: usize)
        ensures
            final(self).next_id() == old(self).next_id(),
            match position(old(self).peers(), PeerKey::Id(id)) {
                Some(i) => {
                    &&& final(self).peers() == old(self).peers().remove(i)
                    &&& final(self).sources() == released(
                        old(self).sources(),
                        old(self).peers()[i].src,
                        id,
                    )
                },
                None => {
                    &&& final(self).peers() == old(self).peers()
                    &&& final(self).sources() == old(self).sources()
                },
            },
            lookup(final(self).peers(), PeerKey::Id(id)) is None,
    {
        proof {
            use_type_invariant(&*self);
        }
        match self.find(PeerKey::Id(id)) {
            None => {},
            Some(i) => {
                proof {
                    lemma_removed(self.peers@, self.curr as int, i as int);
                }
                let p = self.peers[i];
                self.drop_link(p.src, p.id);
                proof {
                    use_type_invariant(&*self);
                }
                let mut peers: Vec<Peer> = Vec::new();
                std::mem::swap(&mut self.peers, &mut peers);
                let _ = peers.remove(i);
                self.peers = peers;
            },
        }
    }

    /// Adds a peer for each address. An address that the table holds
    /// already is left out; all of those come back in the error, and the
    /// others are added all the same.
    pub fn load(&mut self, addrs: Vec<Address>) -> (r: Result<(), PeerErrs>)
        requires
            old(self).next_id() + addrs.len() <= usize::MAX,
        ensures
            ({
                let l = loaded(old(self).peers(), old(self).next_id(), addrs@);
                &&& final(self).peers() == l.peers
                &&& final(self).next_id() == l.next
                &&& final(self).sources() == old(self).sources()
                &&& match r {
                    Ok(()) => l.refused.len() == 0,
                    Err(e) => l.refused.len() > 0 && e.peers@ == l.refused,
                }
            }),
    {
        proof {
            use_type_invariant(&*self);
        }
        let ghost start = self.peers@;
        let ghost first = self.curr as int;
        let mut refused: Vec<Address> = Vec::new();
        let mut i: usize = 0;
        while i < addrs.len()
            invariant
                i <= addrs.len(),
                table_ok(start, first),
                first + addrs.len() <= usize::MAX,
                self.peers() == loaded(start, first, addrs@.take(i as int)).peers,
                self.next_id() == loaded(start, first, addrs@.take(i as int)).next,
                self.sources() == old(self).sources(),
                refused@ == loaded(start, first, addrs@.take(i as int)).refused,
            decreases addrs.len() - i,
        {
            let a = addrs[i];
            proof {
                assert(addrs@.take(i + 1).drop_last() =~= addrs@.take(i as int));
                assert(addrs@.take(i + 1).last() == a);
                lemma_loaded(start, first, addrs@.take(i as int));
            }
            match self.find(PeerKey::Dst(a)) {
                Some(_) => {
                    refused.push(a);
                },
                None => {
                    self.append(a);
                },
            }
            i += 1;
        }
        assert(addrs@.take(i as int) =~= addrs@);
        if refused.len() == 0 {
            Ok(())
        } else {
            Err(PeerErrs { peers: refused })
        }
    }
}

} // verus!
