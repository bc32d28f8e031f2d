use libqaul::endpoint::{Endpoint, Frame, Target};
use libqaul::error::Error;
use libqaul::identity::Identity;
use libqaul::peers::{Address, IpAddress};
use libqaul::router::{Route, Router};

fn host(n: u32, port: u16) -> Address {
    Address { ip: IpAddress::V4(0x0a00_0000 + n), port }
}

fn id(n: u8) -> Identity {
    Identity::from_bytes(&[n; 32]).unwrap()
}

#[test]
fn endpoints_are_registered_and_started() {
    let mut router = Router::new();
    let mut ep = Endpoint::new();
    ep.load_peers(vec![host(1, 9000), host(2, 9000)]).unwrap();
    let (first, known) = router.add_endpoint(ep);
    assert_eq!(first, 0);
    assert_eq!(known, vec![(0, host(1, 9000)), (1, host(2, 9000))]);
    let (second, known) = router.add_endpoint(Endpoint::new());
    assert_eq!(second, 1);
    assert_eq!(known, vec![]);
    // a started endpoint has an inbox: nothing waits, and nothing is lost
    assert!(router.recv().is_none());
}

#[test]
fn frames_follow_their_routes() {
    let mut router = Router::new();
    let mut ep = Endpoint::new();
    ep.load_peers(vec![host(1, 9000), host(2, 9000)]).unwrap();
    ep.hello(&host(2, 40000), 9000).unwrap();
    router.add_endpoint(ep);
    let frame = Frame(vec![1, 2, 3]);

    assert_eq!(router.send(&frame, id(1)).unwrap_err(), Error::NoRoute);
    router.set_route(id(1), Route { endpoint: 0, peer: 1 });
    router.set_route(id(2), Route { endpoint: 0, peer: 0 });
    router.set_route(id(3), Route { endpoint: 5, peer: 0 });
    let d = router.send(&frame, id(1)).unwrap();
    assert_eq!((d.endpoint, d.to), (0, vec![host(2, 9000)]));
    // the peer behind the route has not said hello
    assert_eq!(router.send(&frame, id(2)).unwrap_err(), Error::NetworkFault);
    // the endpoint behind the route is not there
    assert_eq!(router.send(&frame, id(3)).unwrap_err(), Error::NoRoute);
    router.set_route(id(2), Route { endpoint: 0, peer: 1 });
    assert_eq!(router.send(&frame, id(2)).unwrap().to, vec![host(2, 9000)]);

    router.add_endpoint(Endpoint::new());
    let all = router.flood(&frame);
    assert_eq!(all.len(), 2);
    assert_eq!((all[0].endpoint, all[0].to.clone()), (0, vec![host(2, 9000)]));
    assert_eq!((all[1].endpoint, all[1].to.clone()), (1, vec![]));
}

#[test]
fn frames_are_received_from_every_endpoint() {
    let mut a = Endpoint::new();
    a.load_peers(vec![host(1, 9000)]).unwrap();
    a.start();
    a.hello(&host(1, 40000), 9000).unwrap();
    let mut b = Endpoint::new();
    b.load_peers(vec![host(7, 9000), host(8, 9000)]).unwrap();
    b.start();
    b.hello(&host(8, 40000), 9000).unwrap();
    assert!(b.receive(&host(8, 40000), Frame(vec![2])));
    assert!(a.receive(&host(1, 40000), Frame(vec![1])));
    assert!(b.receive(&host(8, 40000), Frame(vec![3])));

    let mut router = Router::new();
    router.add_endpoint(a);
    router.add_endpoint(b);
    let mut seen = vec![];
    while let Some((frame, from, at)) = router.recv() {
        seen.push((frame.0, from, at));
    }
    assert_eq!(
        seen,
        vec![
            (vec![1], Target::Single(0), 0),
            (vec![2], Target::Single(1), 1),
            (vec![3], Target::Single(1), 1)
        ]
    );
}

#[test]
fn the_router_hands_connections_and_frames_to_its_endpoints() {
    let mut router = Router::new();
    let mut ep = Endpoint::new();
    ep.load_peers(vec![host(1, 9000)]).unwrap();
    let (at, _) = router.add_endpoint(ep);
    assert_eq!(router.ids_left(at), usize::MAX - 1);
    assert_eq!(router.ids_left(7), 0);
    let src = host(1, 40000);

    // before the hello nothing is taken from the source
    assert!(!router.receive(at, &src, Frame(vec![0])));
    assert_eq!(router.hello(at, &host(2, 40000), 9000), None);
    assert_eq!(router.hello(at, &src, 9000), Some(0));
    assert_eq!(router.hello(7, &src, 9000), None);
    assert!(router.receive(at, &src, Frame(vec![1])));
    assert!(router.receive(at, &src, Frame(vec![2])));
    assert!(!router.receive(7, &src, Frame(vec![3])));
    router.set_route(id(1), Route { endpoint: at, peer: 0 });
    assert_eq!(router.send(&Frame(vec![]), id(1)).unwrap().to, vec![host(1, 9000)]);

    let (f, from, ep) = router.recv().unwrap();
    assert_eq!((f.0, from, ep), (vec![1], Target::Single(0), at));
    router.disconnect(7, 0);
    router.disconnect(at, 0);
    // what has come in stays; nothing more is taken, and nothing sent
    assert!(!router.receive(at, &src, Frame(vec![4])));
    assert_eq!(router.send(&Frame(vec![]), id(1)).unwrap_err(), Error::NetworkFault);
    let (f, _, _) = router.recv().unwrap();
    assert_eq!(f.0, vec![2]);
    assert!(router.recv().is_none());
}
