use libqaul::endpoint::{Endpoint, Frame, Mode, NetError, Target};
use libqaul::peerfile::peer_entries;
use libqaul::peers::{Address, IpAddress};
use libqaul::rpc::envelope::{Request, RequestKind, Response};
use libqaul::wire::{
    next_backoff, on_idle, Idle, Packet, WireError, BACKOFF_CAP, BACKOFF_START, KEEPALIVE_AFTER,
    MAX_FRAME, TIMEOUT_AFTER,
};

fn local(port: u16) -> Address {
    Address { ip: IpAddress::V4(0x7f00_0001), port }
}

fn host(n: u32, port: u16) -> Address {
    Address { ip: IpAddress::V4(0x0a00_0000 + n), port }
}

#[test]
fn modes() {
    assert!(Mode::Dynamic.dynamic());
    assert!(!Mode::Static.dynamic());
}

#[test]
fn trivial() {
    // two endpoints that have each other as peers; the wire between them
    // is played by the test
    let mut a = Endpoint::new();
    a.load_peers(vec![local(11000)]).unwrap();
    let mut b = Endpoint::new();
    b.load_peers(vec![local(10000)]).unwrap();
    assert_eq!(a.start(), vec![(0, local(11000))]);
    assert_eq!(b.start(), vec![(0, local(10000))]);

    // each connects to the other and says hello with its own port
    let a_out = local(50001);
    let b_out = local(50002);
    assert_eq!(b.hello(&a_out, 10000), Some(0));
    assert_eq!(a.hello(&b_out, 11000), Some(0));

    let frame = Frame(vec![1, 2, 3, 4]);
    let to = a.send(&frame, Target::Single(0)).unwrap();
    assert_eq!(to, vec![local(11000)]);
    let bytes = Packet::Frame(frame.0.clone()).encode().unwrap();
    let (packet, used) = Packet::decode(&bytes).unwrap();
    assert_eq!(used, bytes.len());
    match packet {
        Packet::Frame(f) => assert!(b.receive(&a_out, Frame(f))),
        other => panic!("{:?}", other),
    }
    let (got, from) = b.next().unwrap().unwrap();
    assert_eq!(got.0, frame.0);
    assert_eq!(from, Target::Single(0));
    assert!(b.next().unwrap().is_none());
}

#[test]
fn floodcast() {
    let mut a = Endpoint::new();
    a.load_peers(vec![host(2, 9000), host(3, 9000), host(4, 9000)]).unwrap();
    a.start();
    // nobody has said hello yet
    assert_eq!(a.send(&Frame(vec![7]), Target::Flood), Ok(vec![]));
    a.hello(&host(2, 40000), 9000).unwrap();
    a.hello(&host(3, 40000), 9000).unwrap();
    let to = a.send(&Frame(vec![7]), Target::Flood).unwrap();
    assert_eq!(to, vec![host(2, 9000), host(3, 9000)]);

    // at each of the two the frame arrives once
    for me in [host(2, 9000), host(3, 9000)] {
        let mut e = Endpoint::new();
        e.load_peers(vec![host(1, 9000)]).unwrap();
        e.start();
        let from = host(1, 45000);
        e.hello(&from, 9000).unwrap();
        assert!(to.contains(&me));
        assert!(e.receive(&from, Frame(vec![7])));
        assert_eq!(e.next().unwrap().unwrap().0 .0, vec![7]);
        assert!(e.next().unwrap().is_none());
    }
}

#[test]
fn a_single_target_has_to_be_verified() {
    let mut a = Endpoint::new();
    assert_eq!(a.size_hint(), 0);
    a.load_peers(vec![host(2, 9000)]).unwrap();
    let f = Frame(vec![]);
    assert_eq!(a.send(&f, Target::Single(0)), Err(NetError::ConnectionLost));
    assert_eq!(a.send(&f, Target::Single(1)), Err(NetError::ConnectionLost));
    a.hello(&host(2, 40000), 9000).unwrap();
    assert_eq!(a.send(&f, Target::Single(0)), Ok(vec![host(2, 9000)]));
    a.disconnect(0);
    assert_eq!(a.send(&f, Target::Single(0)), Err(NetError::ConnectionLost));
    assert_eq!(a.send(&f, Target::Flood), Ok(vec![]));
}

#[test]
fn hellos_from_strangers() {
    let mut a = Endpoint::new();
    a.start();
    assert_eq!(a.hello(&host(9, 40000), 7000), None);
    a.mode(Mode::Dynamic);
    assert_eq!(a.hello(&host(9, 40000), 7000), Some(0));
    assert_eq!(a.send(&Frame(vec![]), Target::Single(0)), Ok(vec![host(9, 7000)]));
    a.mode(Mode::Static);
    assert_eq!(a.hello(&host(8, 40000), 7000), None);
    assert_eq!(a.hello(&host(9, 41000), 7000), Some(0));
    assert_eq!(a.ids_left(), usize::MAX - 1);
}

#[test]
fn the_inbox() {
    let mut a = Endpoint::new();
    a.load_peers(vec![host(2, 9000), host(3, 9000)]).unwrap();
    let two = host(2, 40000);
    let three = host(3, 40000);
    a.hello(&two, 9000).unwrap();
    // an endpoint that was not started takes nothing in and gives nothing out
    assert!(!a.receive(&two, Frame(vec![1])));
    assert_eq!(a.next().unwrap_err(), NetError::ConnectionLost);
    assert_eq!(a.start(), vec![(0, host(2, 9000)), (1, host(3, 9000))]);
    assert!(a.next().unwrap().is_none());
    // start twice is start once
    assert!(a.receive(&two, Frame(vec![1])));
    a.start();
    // frames from unverified and unknown sources are dropped
    assert!(!a.receive(&three, Frame(vec![2])));
    assert!(!a.receive(&host(4, 1), Frame(vec![3])));
    a.hello(&three, 9000).unwrap();
    assert!(a.receive(&three, Frame(vec![4])));
    assert!(a.receive(&two, Frame(vec![5])));
    let mut seen = vec![];
    while let Some((f, from)) = a.next().unwrap() {
        seen.push((f.0, from));
    }
    assert_eq!(
        seen,
        vec![
            (vec![1], Target::Single(0)),
            (vec![4], Target::Single(1)),
            (vec![5], Target::Single(0))
        ]
    );
    // peers that are loaded while the endpoint runs are handed to the socket
    let known = a.load_peers(vec![host(5, 9000)]).unwrap();
    assert_eq!(known, vec![(0, host(2, 9000)), (1, host(3, 9000)), (2, host(5, 9000))]);
    let err = a.load_peers(vec![host(5, 9000), host(6, 9000)]).unwrap_err();
    assert_eq!(err.peers, vec![host(5, 9000)]);
}

#[test]
fn packets_on_the_wire() {
    assert_eq!(Packet::Hello { port: 11000 }.encode().unwrap(), vec![0, 0, 0, 3, 0, 0x2a, 0xf8]);
    assert_eq!(Packet::Hello { port: 0 }.encode().unwrap(), vec![0, 0, 0, 3, 0, 0, 0]);
    assert_eq!(Packet::KeepAlive.encode().unwrap(), vec![0, 0, 0, 1, 1]);
    assert_eq!(Packet::Frame(vec![]).encode().unwrap(), vec![0, 0, 0, 1, 2]);
    assert_eq!(Packet::Frame(vec![9, 8]).encode().unwrap(), vec![0, 0, 0, 3, 2, 9, 8]);
    let long = Packet::Frame(vec![5; 70000]).encode().unwrap();
    assert_eq!(&long[..5], &[0, 1, 0x11, 0x71, 2]);
    assert_eq!(long.len(), 70005);
    assert_eq!(MAX_FRAME, u32::MAX as usize - 1);

    for p in [
        Packet::Hello { port: 65535 },
        Packet::Hello { port: 256 },
        Packet::KeepAlive,
        Packet::Frame(vec![]),
        Packet::Frame(vec![0, 1, 2]),
        Packet::Frame(vec![3; 70000]),
    ] {
        let mut bytes = p.encode().unwrap();
        let len = bytes.len();
        bytes.extend_from_slice(&[0, 0, 0, 1, 1]);
        let (back, used) = Packet::decode(&bytes).unwrap();
        assert_eq!(format!("{:?}", back), format!("{:?}", p));
        assert_eq!(used, len);
        // every proper beginning of a packet is incomplete
        for cut in [0, 1, 3, 4, len - 1] {
            assert_eq!(Packet::decode(&bytes[..cut]).unwrap_err(), WireError::Incomplete);
        }
    }
}

#[test]
fn bad_packets() {
    assert_eq!(Packet::decode(&[0, 0, 0, 0]).unwrap_err(), WireError::BadLength);
    assert_eq!(Packet::decode(&[0, 0, 0, 0, 1]).unwrap_err(), WireError::BadLength);
    assert_eq!(Packet::decode(&[0, 0, 0, 1, 3]).unwrap_err(), WireError::BadTag);
    assert_eq!(Packet::decode(&[0, 0, 0, 1, 255]).unwrap_err(), WireError::BadTag);
    assert_eq!(Packet::decode(&[0, 0, 0, 1, 0]).unwrap_err(), WireError::BadLength);
    assert_eq!(Packet::decode(&[0, 0, 0, 4, 0, 1, 2, 3]).unwrap_err(), WireError::BadLength);
    assert_eq!(Packet::decode(&[0, 0, 0, 2, 1, 0]).unwrap_err(), WireError::BadLength);
    assert_eq!(Packet::decode(&[255, 255, 255, 255, 2]).unwrap_err(), WireError::Incomplete);
}

#[test]
fn waits_between_tries_double_up_to_the_cap() {
    assert_eq!((BACKOFF_START, BACKOFF_CAP), (250, 30_000));
    let mut delay = 0;
    let mut seen = vec![];
    for _ in 0..10 {
        delay = next_backoff(delay);
        seen.push(delay);
    }
    assert_eq!(seen, vec![250, 500, 1000, 2000, 4000, 8000, 16000, 30000, 30000, 30000]);
    assert_eq!(next_backoff(14_999), 29_998);
    assert_eq!(next_backoff(15_000), 30_000);
    assert_eq!(next_backoff(u64::MAX), 30_000);
    assert_eq!(next_backoff(249), 250);
}

#[test]
fn silence_on_a_connection() {
    assert_eq!((KEEPALIVE_AFTER, TIMEOUT_AFTER), (10_000, 30_000));
    assert_eq!(on_idle(0, 0), Idle::Wait);
    assert_eq!(on_idle(9_999, 29_999), Idle::Wait);
    assert_eq!(on_idle(10_000, 0), Idle::KeepAlive);
    assert_eq!(on_idle(10_000, 29_999), Idle::KeepAlive);
    assert_eq!(on_idle(0, 30_000), Idle::Close);
    assert_eq!(on_idle(u64::MAX, u64::MAX), Idle::Close);
}

#[test]
fn request_kinds_travel_under_their_own_names() {
    let all = RequestKind::all();
    assert_eq!(all.len(), 18);
    for k in &all {
        let (kind, method) = k.names();
        assert_eq!(RequestKind::parse(kind, method), Some(*k));
    }
    assert_eq!(RequestKind::parse("user", "create"), Some(RequestKind::UserCreate));
    assert_eq!(RequestKind::parse("message", "query"), Some(RequestKind::MsgQuery));
    assert_eq!(RequestKind::parse("contact", "all"), Some(RequestKind::ContactAll));
    assert_eq!(RequestKind::parse("user", "all"), None);
    assert_eq!(RequestKind::parse("User", "create"), None);
    assert_eq!(RequestKind::parse("", ""), None);
    assert_eq!(RequestKind::parse("chat_message", "create"), None);
    let req = Request::UserGet(libqaul::rpc::users::Get {
        user: libqaul::identity::Identity::from_bytes(&[0; 32]).unwrap(),
    });
    assert_eq!(req.kind(), RequestKind::UserGet);
    assert_eq!(Response::Success.tag(), "success");
    assert_eq!(Response::Error(String::new()).tag(), "error");
    assert_eq!(Response::UserId(vec![]).tag(), "user_id");
    assert_eq!(Response::Message(vec![]).tag(), "message");
}

#[test]
fn peer_list_files() {
    let lines = |text: &str| -> Vec<String> {
        peer_entries(text.as_bytes())
            .into_iter()
            .map(|e| String::from_utf8(e).unwrap())
            .collect()
    };
    assert_eq!(lines(""), Vec::<String>::new());
    assert_eq!(lines("\n\n"), Vec::<String>::new());
    assert_eq!(lines("127.0.0.1:9000"), vec!["127.0.0.1:9000"]);
    assert_eq!(lines("127.0.0.1:9000\n"), vec!["127.0.0.1:9000"]);
    assert_eq!(
        lines("# my peers\nexample.org:9000\n\n  \t\n#10.0.0.1:1\n [::1]:7 \r\nlast:1"),
        vec!["example.org:9000", "[::1]:7", "last:1"]
    );
    assert_eq!(lines("  # indented remark\na:1 # not a remark"), vec!["a:1 # not a remark"]);
    assert_eq!(lines("a:1\r\nb:2\r\n"), vec!["a:1", "b:2"]);
    assert_eq!(lines("x y"), vec!["x y"]);
}
