use libqaul::error::Error;
use libqaul::helpers::{FromRecord, Tagged};
use libqaul::identity::Identity;
use libqaul::messages::{
    msg_path, sender_tag, service_tag, Message, Mode, MsgQuery, MsgStore, Service, TAG_FLOOD,
    TAG_SENDER, TAG_SERVICE, TAG_UNREAD,
};
use libqaul::store::library::Library;
use libqaul::store::record::{Diff, Path, Session, Value, GLOBAL};
use libqaul::tags::{Tag, TagSet};

fn id(n: u8) -> Identity {
    Identity::from_bytes(&[n; 32]).unwrap()
}

fn message(n: u8, sender: Identity, tags: TagSet) -> Message {
    Message {
        id: id(n),
        sender,
        associator: "net.qaul.chat".to_string(),
        tags,
        payload: vec![n, n, n],
    }
}

struct Test {
    store: MsgStore,
}

fn init() -> Test {
    Test { store: MsgStore::new(Library::new()) }
}

fn make_user(state: &mut Test, id: Identity) {
    state.store.add_user(id);
}

fn send_with_tags(state: &mut Test, n: u8, user: Identity, tags: TagSet, mode: Mode) {
    make_user(state, user);
    let msg = message(n, user, tags);
    state.store.insert_local(user, &msg, mode).unwrap();
}

fn receive_with_tags(state: &mut Test, n: u8, user: Option<Identity>, tags: TagSet) {
    if let Some(user) = user {
        make_user(state, user);
    }
    let msg = match user {
        Some(id) => message(n, id, tags),
        None => message(n, id(200), tags),
    };
    state.store.insert_remote(user, &msg).unwrap();
}

#[test]
fn simple_send() {
    let mut state = init();
    let id = id(1);
    let tags = TagSet::empty();
    send_with_tags(&mut state, 10, id, tags, Mode::Std(self::id(2)));

    let mut result = state
        .store
        .query(id, Service::God, MsgQuery::new().sender(id))
        .unwrap();
    assert_eq!(result.take(state.store.library(), 1).unwrap().len(), 1);
}

#[test]
fn simple_received() {
    let mut state = init();
    let id = id(1);
    make_user(&mut state, id);

    let tags = TagSet::empty();
    receive_with_tags(&mut state, 10, Some(id), tags);

    let mut result = state
        .store
        .query(id, Service::God, MsgQuery::new().sender(id))
        .unwrap();
    assert_eq!(result.take(state.store.library(), 1).unwrap().len(), 1);
}

#[test]
fn well_known_tags() {
    assert_eq!(TAG_FLOOD, "libqaul._int.flood");
    assert_eq!(TAG_UNREAD, "libqaul._int.unread");
    assert_eq!(TAG_SENDER, "libqaul._int.sender");
    assert_eq!(TAG_SERVICE, "libqaul._int.service");
    assert_eq!(sender_tag(id(3)), Tag::new("libqaul._int.sender", vec![3; 32]));
    assert_eq!(service_tag("chat"), Tag::new("libqaul._int.service", b"chat".to_vec()));
    assert_eq!(Message::tag(), Tag::empty("message"));
    let path = msg_path(id(0xab));
    assert_eq!(path.as_str(), format!("/msg:{}", "AB".repeat(32)));
    assert!(path.is_rooted());
}

#[test]
fn a_local_message_is_kept_with_its_tags() {
    let mut state = init();
    let user = id(1);
    send_with_tags(&mut state, 10, user, TagSet::from(Tag::empty("mine")), Mode::Std(id(2)));
    let rec = state.store.library().get(Session::Id(user), &msg_path(id(10))).unwrap();
    let want = TagSet::from(vec![
        Tag::empty("mine"),
        sender_tag(user),
        service_tag("net.qaul.chat"),
        Tag::empty("message"),
    ]);
    assert!(rec.tags().equality(&want));
    assert!(!rec.tags().contains(&Tag::empty(TAG_UNREAD)));
    assert!(matches!(rec.kv().get("id"), Some(Value::Bin(b)) if b == &vec![10; 32]));
    assert!(matches!(rec.kv().get("sender"), Some(Value::Bin(b)) if b == &vec![1; 32]));
    assert!(matches!(rec.kv().get("associate"), Some(Value::Str(s)) if s == "net.qaul.chat"));
    assert!(matches!(rec.kv().get("payload"), Some(Value::Bin(b)) if b == &vec![10, 10, 10]));
    assert!(state.store.library().get(GLOBAL, &msg_path(id(10))).is_none());

    let back = Message::from_rec(&rec).unwrap();
    assert_eq!(back.id, id(10));
    assert_eq!(back.sender, user);
    assert_eq!(back.associator, "net.qaul.chat");
    assert_eq!(back.payload, vec![10, 10, 10]);
    assert!(back.tags.equality(&want));
}

#[test]
fn a_flooded_message_is_kept_for_everyone() {
    let mut state = init();
    let user = id(1);
    send_with_tags(&mut state, 10, user, TagSet::empty(), Mode::Flood);
    let rec = state.store.library().get(GLOBAL, &msg_path(id(10))).unwrap();
    assert!(rec.tags().contains(&Tag::empty(TAG_FLOOD)));
    assert!(rec.tags().contains(&sender_tag(user)));
    assert!(!rec.tags().contains(&Tag::empty(TAG_UNREAD)));
    assert!(state.store.library().get(Session::Id(user), &msg_path(id(10))).is_none());

    receive_with_tags(&mut state, 11, None, TagSet::empty());
    let rec = state.store.library().get(GLOBAL, &msg_path(id(11))).unwrap();
    assert!(rec.tags().contains(&Tag::empty(TAG_FLOOD)));
    assert!(rec.tags().contains(&Tag::empty(TAG_UNREAD)));
    assert!(rec.tags().contains(&sender_tag(id(200))));
}

#[test]
fn unread_accounting() {
    let mut state = init();
    let user = id(1);
    make_user(&mut state, user);
    let msg = message(10, id(7), TagSet::empty());
    state.store.insert_remote(Some(user), &msg).unwrap();

    let mut res = state.store.query(user, Service::God, MsgQuery::default()).unwrap();
    let found = res.resolve(state.store.library());
    assert_eq!(found.len(), 1);
    assert_eq!(found[0].id, id(10));
    assert_eq!(found[0].payload, vec![10, 10, 10]);
    assert!(found[0].tags.contains(&Tag::empty(TAG_UNREAD)));

    state.store.acknowledge(Session::Id(user), id(10)).unwrap();
    let mut res = state.store.query(user, Service::God, MsgQuery::default()).unwrap();
    let found = res.resolve(state.store.library());
    assert_eq!(found.len(), 1);
    assert!(!found[0].tags.contains(&Tag::empty(TAG_UNREAD)));
    assert!(found[0].tags.contains(&sender_tag(id(7))));
    assert_eq!(found[0].payload, vec![10, 10, 10]);
}

#[test]
fn dedup_on_service_fan_out() {
    let mut state = init();
    let u = id(1);
    make_user(&mut state, u);
    assert!(!state.store.probe_id(u, id(10)));
    let msg = message(10, u, TagSet::empty());
    state.store.insert_local(u, &msg, Mode::Std(id(2))).unwrap();
    assert!(state.store.probe_id(u, id(10)));
    assert!(!state.store.probe_id(u, id(11)));
    // the namespace of a user who is not known holds nothing
    assert!(!state.store.probe_id(id(3), id(10)));
    // the same message cannot be kept twice
    assert_eq!(state.store.insert_local(u, &msg, Mode::Std(id(2))), Err(Error::InvalidPayload));
    // a flooded message is found as well, by everyone
    assert!(!state.store.probe_id(u, id(12)));
    let flood = message(12, u, TagSet::empty());
    state.store.insert_local(u, &flood, Mode::Flood).unwrap();
    assert!(state.store.probe_id(u, id(12)));
    assert!(state.store.probe_id(id(3), id(12)));
    assert!(!state.store.probe_id(u, id(13)));
    assert!(!state.store.probe_id(id(3), id(10)));
    // different messages stand under different paths
    assert_ne!(msg_path(id(12)).as_str(), msg_path(id(13)).as_str());
}

#[test]
fn queries_narrow_by_service_sender_and_tags() {
    let mut state = init();
    let me = id(1);
    make_user(&mut state, me);
    let chat = |n: u8, sender: u8, tag: &str| Message {
        id: id(n),
        sender: id(sender),
        associator: "chat".to_string(),
        tags: TagSet::from(Tag::empty(tag)),
        payload: vec![n],
    };
    state.store.insert_remote(Some(me), &chat(10, 5, "red")).unwrap();
    state.store.insert_remote(Some(me), &chat(11, 6, "red")).unwrap();
    state.store.insert_remote(None, &chat(12, 5, "blue")).unwrap();
    let mut files = chat(13, 5, "red");
    files.associator = "files".to_string();
    state.store.insert_remote(Some(me), &files).unwrap();

    let ids = |store: &MsgStore, service: Service, q: MsgQuery| {
        let mut res = store.query(me, service, q).unwrap();
        let mut v: Vec<u8> = res.resolve(store.library()).iter().map(|m| m.payload[0]).collect();
        v.sort();
        v
    };
    assert_eq!(ids(&state.store, Service::God, MsgQuery::new()), vec![10, 11, 12, 13]);
    assert_eq!(ids(&state.store, Service::Name("chat".to_string()), MsgQuery::new()), vec![10, 11, 12]);
    assert_eq!(ids(&state.store, Service::Name("files".to_string()), MsgQuery::new()), vec![13]);
    assert_eq!(ids(&state.store, Service::Name("none".to_string()), MsgQuery::new()), Vec::<u8>::new());
    assert_eq!(ids(&state.store, Service::God, MsgQuery::new().sender(id(5))), vec![10, 12, 13]);
    assert_eq!(ids(&state.store, Service::God, MsgQuery::new().tag(Tag::empty("red"))), vec![10, 11, 13]);
    assert_eq!(
        ids(
            &state.store,
            Service::Name("chat".to_string()),
            MsgQuery::new().sender(id(5)).tag(Tag::empty("red"))
        ),
        vec![10]
    );
    // by id, whatever else the query says
    assert_eq!(ids(&state.store, Service::Name("none".to_string()), MsgQuery::new().id(id(12))), vec![12]);
    assert_eq!(ids(&state.store, Service::God, MsgQuery::new().id(id(99))), Vec::<u8>::new());
    let mut by_path = state.store.query_path(me, id(11)).unwrap();
    assert_eq!(by_path.next(state.store.library()).unwrap().payload, vec![11]);
    // the namespace of the one who asks has to be open
    assert!(matches!(state.store.query(id(9), Service::God, MsgQuery::new()), Err(Error::NotAuthorised)));
    assert!(matches!(state.store.query_path(id(9), id(10)), Err(Error::NotAuthorised)));
}

#[test]
fn a_subscription_hands_out_the_messages_that_come() {
    let mut state = init();
    let me = id(1);
    make_user(&mut state, me);
    let sub = state
        .store
        .subscribe(me, Service::Name("net.qaul.chat".to_string()), TagSet::empty())
        .unwrap();
    assert!(state.store.next_message(me, &sub).unwrap().is_none());
    state.store.insert_remote(Some(me), &message(10, id(5), TagSet::empty())).unwrap();
    let mut other = message(11, id(5), TagSet::empty());
    other.associator = "other".to_string();
    state.store.insert_remote(Some(me), &other).unwrap();
    state.store.insert_remote(Some(me), &message(12, id(6), TagSet::empty())).unwrap();
    assert_eq!(state.store.next_message(me, &sub).unwrap().unwrap().id, id(10));
    assert_eq!(state.store.next_message(me, &sub).unwrap().unwrap().id, id(12));
    assert!(state.store.next_message(me, &sub).unwrap().is_none());
    assert!(matches!(
        state.store.subscribe(id(2), Service::God, TagSet::empty()),
        Err(Error::NotAuthorised)
    ));
}

#[test]
fn a_record_that_is_no_message_is_not_read_as_one() {
    let mut lib = Library::new();
    lib.batch(GLOBAL, Path::new("/x".to_string()), TagSet::empty(), vec![]).unwrap();
    assert!(Message::from_rec(&lib.get(GLOBAL, &Path::new("/x".to_string())).unwrap()).is_none());
    // an id of the wrong width
    lib.batch(
        GLOBAL,
        Path::new("/y".to_string()),
        TagSet::empty(),
        vec![
            Diff::insert("id", Value::Bin(vec![1; 31])),
            Diff::insert("sender", Value::Bin(vec![2; 32])),
            Diff::insert("associate", Value::Str("s".to_string())),
            Diff::insert("payload", Value::Bin(vec![])),
        ],
    )
    .unwrap();
    assert!(Message::from_rec(&lib.get(GLOBAL, &Path::new("/y".to_string())).unwrap()).is_none());
    // a field of the wrong kind
    lib.batch(
        GLOBAL,
        Path::new("/z".to_string()),
        TagSet::empty(),
        vec![
            Diff::insert("id", Value::Bin(vec![1; 32])),
            Diff::insert("sender", Value::Bin(vec![2; 32])),
            Diff::insert("associate", Value::Bin(vec![])),
            Diff::insert("payload", Value::Bin(vec![])),
        ],
    )
    .unwrap();
    assert!(Message::from_rec(&lib.get(GLOBAL, &Path::new("/z".to_string())).unwrap()).is_none());
}
