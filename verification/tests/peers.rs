use libqaul::endpoint::Mode;
use libqaul::peers::{Address, IpAddress, Peer, PeerList, PeerState};

fn v4(a: u8, b: u8, c: u8, d: u8, port: u16) -> Address {
    Address { ip: IpAddress::V4(u32::from_be_bytes([a, b, c, d])), port }
}

#[test]
fn load_peers() {
    let a1 = v4(127, 0, 0, 1, 8000);
    let a2 = v4(127, 0, 0, 1, 9000);

    let mut peers = PeerList::new();
    peers.load(vec![a1, a2]).unwrap();

    let id = peers.get_id_by_dst(&a1).unwrap();
    assert_eq!(peers.get_dst_by_id(id), Some(a1));
}

#[test]
fn ids_are_given_out_in_order() {
    let mut peers = PeerList::new();
    let a = v4(10, 0, 0, 1, 1);
    let b = v4(10, 0, 0, 2, 1);
    let c = v4(10, 0, 0, 3, 1);
    peers.load(vec![a, b]).unwrap();
    peers.load(vec![c]).unwrap();
    assert_eq!(peers.all_known(), vec![(0, a), (1, b), (2, c)]);
    assert_eq!(peers.get_id_by_dst(&c), Some(2));
    assert_eq!(peers.get_id_by_dst(&v4(10, 0, 0, 4, 1)), None);
    assert_eq!(
        peers.peer_with_id(1),
        Some(Peer { id: 1, dst: b, src: None, verified: false })
    );
    assert_eq!(peers.peer_with_id(3), None);
    assert_eq!(peers.ids_left(), usize::MAX - 3);
}

#[test]
fn duplicates_are_reported_and_the_rest_is_loaded() {
    let mut peers = PeerList::new();
    let a = v4(10, 0, 0, 1, 1);
    let b = v4(10, 0, 0, 2, 1);
    let c = v4(10, 0, 0, 3, 1);
    peers.load(vec![a]).unwrap();
    let err = peers.load(vec![b, a, c, b, a]).unwrap_err();
    assert_eq!(err.peers, vec![a, b, a]);
    assert_eq!(peers.all_known(), vec![(0, a), (1, b), (2, c)]);
    // the first loaded keeps its id
    assert_eq!(peers.get_id_by_dst(&a), Some(0));
}

#[test]
fn a_loaded_peer_becomes_valid_when_it_says_hello() {
    let mut peers = PeerList::new();
    let p = v4(192, 168, 0, 7, 11000);
    peers.load(vec![v4(192, 168, 0, 9, 11000), p]).unwrap();
    let src = v4(192, 168, 0, 7, 54321);
    assert_eq!(peers.peer_state(&src), PeerState::Unverified);
    assert_eq!(peers.get_id_by_src(&src), None);

    let id = peers.add_src(&src, 11000);
    assert_eq!(id, Some(1));
    assert_eq!(peers.peer_state(&src), PeerState::Valid);
    assert_eq!(peers.get_id_by_src(&src), Some(1));
    assert_eq!(peers.get_dst_by_src(&src), Some(p));
    assert_eq!(
        peers.peer_with_id(1),
        Some(Peer { id: 1, dst: p, src: Some(src), verified: true })
    );
}

#[test]
fn states_of_sources() {
    let mut peers = PeerList::new();
    let known = v4(10, 1, 1, 1, 9000);
    peers.load(vec![known]).unwrap();
    assert_eq!(peers.peer_state(&v4(10, 1, 1, 2, 9000)), PeerState::Unknown);
    assert_eq!(peers.peer_state(&v4(10, 1, 1, 1, 1)), PeerState::Unverified);
    // the wrong port matches no peer
    assert_eq!(peers.add_src(&v4(10, 1, 1, 1, 40000), 9001), None);
    assert_eq!(peers.peer_state(&v4(10, 1, 1, 1, 1)), PeerState::Unverified);
    // an unknown host matches no peer
    assert_eq!(peers.add_src(&v4(10, 1, 1, 2, 40000), 9000), None);
    assert_eq!(peers.add_src(&v4(10, 1, 1, 1, 40000), 9000), Some(0));
    // every source at the host of a verified peer is valid
    assert_eq!(peers.peer_state(&v4(10, 1, 1, 1, 1)), PeerState::Valid);
}

#[test]
fn a_lost_connection_makes_the_peer_unverified_again() {
    let mut peers = PeerList::new();
    let dst = v4(10, 1, 1, 1, 9000);
    let src = v4(10, 1, 1, 1, 40000);
    peers.load(vec![dst]).unwrap();
    peers.add_src(&src, 9000).unwrap();
    peers.disconnect(0);
    assert_eq!(peers.peer_state(&src), PeerState::Unverified);
    assert_eq!(peers.get_id_by_src(&src), None);
    assert_eq!(
        peers.peer_with_id(0),
        Some(Peer { id: 0, dst, src: None, verified: false })
    );
    peers.disconnect(17);
    assert_eq!(peers.all_known(), vec![(0, dst)]);
}

#[test]
fn a_removed_peer_is_gone_and_its_id_is_not_given_again() {
    let mut peers = PeerList::new();
    let a = v4(10, 0, 0, 1, 1);
    let b = v4(10, 0, 0, 2, 1);
    peers.load(vec![a, b]).unwrap();
    peers.add_src(&v4(10, 0, 0, 1, 5), 1).unwrap();
    peers.del_peer(0);
    assert_eq!(peers.peer_with_id(0), None);
    assert_eq!(peers.get_id_by_dst(&a), None);
    assert_eq!(peers.get_id_by_src(&v4(10, 0, 0, 1, 5)), None);
    assert_eq!(peers.peer_state(&v4(10, 0, 0, 1, 5)), PeerState::Unknown);
    peers.del_peer(0);
    assert_eq!(peers.all_known(), vec![(1, b)]);
    peers.load(vec![a]).unwrap();
    assert_eq!(peers.get_id_by_dst(&a), Some(2));
}

#[test]
fn binding_changes_the_matched_peer_only() {
    let mut peers = PeerList::new();
    let a = v4(10, 0, 0, 1, 8000);
    let b = v4(10, 0, 0, 1, 9000);
    let c = v4(10, 0, 0, 2, 8000);
    peers.load(vec![a, b, c]).unwrap();
    let known = peers.all_known();
    let src = v4(10, 0, 0, 1, 5555);
    assert_eq!(peers.add_src(&src, 8000), Some(0));
    assert_eq!(peers.get_dst_by_src(&src), Some(a));
    assert_eq!(peers.get_id_by_src(&src), Some(0));
    // a second call gives the same id and changes nothing
    assert_eq!(peers.add_src(&src, 8000), Some(0));
    assert_eq!(peers.all_known(), known);
    assert_eq!(
        peers.all_peers(),
        vec![
            Peer { id: 0, dst: a, src: Some(src), verified: true },
            Peer { id: 1, dst: b, src: None, verified: false },
            Peer { id: 2, dst: c, src: None, verified: false }
        ]
    );

    // the same source, bound to another peer: the first stays as it is,
    // and the source leads to the one that was bound last
    assert_eq!(peers.add_src(&src, 9000), Some(1));
    assert_eq!(
        peers.all_peers(),
        vec![
            Peer { id: 0, dst: a, src: Some(src), verified: true },
            Peer { id: 1, dst: b, src: Some(src), verified: true },
            Peer { id: 2, dst: c, src: None, verified: false }
        ]
    );
    assert_eq!(peers.get_id_by_src(&src), Some(1));
    assert_eq!(peers.get_dst_by_src(&src), Some(b));
    assert_eq!(peers.holder(&src).map(|p| p.id), Some(1));
    assert_eq!(peers.add_src(&src, 8000), Some(0));
    assert_eq!(peers.get_id_by_src(&src), Some(0));

    // when the last bound lets go, the source leads nowhere
    peers.disconnect(0);
    assert_eq!(peers.get_id_by_src(&src), None);
    assert_eq!(peers.peer_with_id(1).unwrap().src, Some(src));
    // a peer that gets another source lets go of the one it had
    let other = v4(10, 0, 0, 1, 6666);
    assert_eq!(peers.add_src(&src, 9000), Some(1));
    assert_eq!(peers.add_src(&other, 9000), Some(1));
    assert_eq!(peers.get_id_by_src(&src), None);
    assert_eq!(peers.get_id_by_src(&other), Some(1));
    peers.del_peer(1);
    assert_eq!(peers.get_id_by_src(&other), None);
}

#[test]
fn unknown_sources_are_adopted_only_in_dynamic_mode() {
    let mut peers = PeerList::new();
    let src = v4(172, 16, 0, 1, 33333);
    assert_eq!(peers.add_src_in_mode(&src, 7000, Mode::Static), None);
    assert_eq!(peers.all_known(), vec![]);
    assert_eq!(peers.add_src_in_mode(&src, 7000, Mode::Dynamic), Some(0));
    assert_eq!(peers.peer_state(&src), PeerState::Valid);
    assert_eq!(
        peers.peer_with_id(0),
        Some(Peer { id: 0, dst: v4(172, 16, 0, 1, 7000), src: Some(src), verified: true })
    );
    // an existing id is preferred
    assert_eq!(peers.add_src_in_mode(&v4(172, 16, 0, 1, 44444), 7000, Mode::Dynamic), Some(0));
    assert_eq!(peers.all_known().len(), 1);
}

#[test]
fn addresses_of_both_families() {
    let mut peers = PeerList::new();
    let six = Address { ip: IpAddress::V6(1), port: 80 };
    let four = Address { ip: IpAddress::V4(1), port: 80 };
    peers.load(vec![six, four]).unwrap();
    assert_eq!(peers.get_id_by_dst(&six), Some(0));
    assert_eq!(peers.get_id_by_dst(&four), Some(1));
    assert_eq!(peers.peer_state(&Address { ip: IpAddress::V6(1), port: 1 }), PeerState::Unverified);
    assert_eq!(peers.peer_state(&Address { ip: IpAddress::V6(2), port: 80 }), PeerState::Unknown);
}
