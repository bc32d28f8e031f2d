use libqaul::api::{Contacts, UserGrant};
use libqaul::contacts::{ContactEntry, ContactQuery, ContactUpdate};
use libqaul::error::Error;
use libqaul::identity::Identity;
use libqaul::messages::{Mode, MsgQuery, Service};
use libqaul::qaul::{Listing, Qaul};
use libqaul::store::library::Library;
use libqaul::tags::{Tag, TagSet};
use libqaul::users::{UserAuth, UserProfile, UserUpdate};

fn id(n: u8) -> Identity {
    Identity::from_bytes(&[n; 32]).unwrap()
}

fn core_with(users: &[u8]) -> (Qaul, Vec<UserAuth>) {
    let mut q = Qaul::new(Library::new());
    let auths = users
        .iter()
        .map(|n| q.user_create(id(*n), "123456", format!("token-{}", n)).unwrap())
        .collect();
    (q, auths)
}

#[test]
fn profile_updates() {
    let p = UserProfile::new(id(1));
    assert_eq!(p.id, id(1));
    assert!(p.display_name.is_none() && p.real_name.is_none() && p.avatar.is_none());
    assert_eq!(p.bio.len(), 0);
    assert_eq!(p.services.len(), 0);

    let p = p
        .apply(UserUpdate::DisplayName(Some("@foo".to_string())))
        .apply(UserUpdate::RealName(Some("Foo Bar".to_string())))
        .apply(UserUpdate::SetBioLine("pronouns".to_string(), "they".to_string()))
        .apply(UserUpdate::SetBioLine("city".to_string(), "Berlin".to_string()))
        .apply(UserUpdate::SetBioLine("city".to_string(), "Wien".to_string()))
        .apply(UserUpdate::AddService("chat".to_string()))
        .apply(UserUpdate::AddService("chat".to_string()))
        .apply(UserUpdate::AddService("files".to_string()))
        .apply(UserUpdate::AvatarData(Some(vec![1, 2, 3])));
    assert_eq!(p.display_name.as_deref(), Some("@foo"));
    assert_eq!(p.real_name.as_deref(), Some("Foo Bar"));
    assert_eq!(p.bio.len(), 2);
    assert_eq!(p.bio.get("city").map(|s| s.as_str()), Some("Wien"));
    assert_eq!(p.services.len(), 2);
    assert!(p.services.contains_key("chat") && p.services.contains_key("files"));
    assert_eq!(p.avatar, Some(vec![1, 2, 3]));

    let mut p = p
        .apply(UserUpdate::RemoveBioLine("city".to_string()))
        .apply(UserUpdate::RemoveBioLine("nothing".to_string()))
        .apply(UserUpdate::RemoveService("chat".to_string()))
        .apply(UserUpdate::RemoveService("nothing".to_string()))
        .apply(UserUpdate::DisplayName(None));
    assert!(p.bio.get("city").is_none());
    assert_eq!(p.bio.len(), 1);
    assert!(!p.services.contains_key("chat") && p.services.contains_key("files"));
    assert!(p.display_name.is_none());
    UserUpdate::AvatarData(None).apply_to(&mut p);
    assert!(p.avatar.is_none());
    assert_eq!(p.real_name.as_deref(), Some("Foo Bar"));
}

#[test]
fn names_are_searched_for_a_text() {
    let p = UserProfile::new(id(1));
    assert!(!p.contains_query(""));
    let p = p
        .apply(UserUpdate::DisplayName(Some("spacekookie".to_string())))
        .apply(UserUpdate::RealName(Some("Katharina".to_string())));
    assert!(p.contains_query("kook"));
    assert!(p.contains_query("Kath"));
    assert!(p.contains_query(""));
    assert!(p.contains_query("spacekookie"));
    assert!(!p.contains_query("spacekookies"));
    assert!(!p.contains_query("kath"));
    assert!(!p.contains_query("ek oo"));
}

#[test]
fn updates_are_generated_for_the_names_that_differ() {
    let named = |display: Option<&str>, real: Option<&str>| {
        UserProfile::new(id(1))
            .apply(UserUpdate::DisplayName(display.map(|s| s.to_string())))
            .apply(UserUpdate::RealName(real.map(|s| s.to_string())))
    };
    let show = |v: Vec<UserUpdate>| v.iter().map(|u| format!("{:?}", u)).collect::<Vec<_>>();
    assert_eq!(show(named(None, None).generate_updates(named(None, None))), Vec::<String>::new());
    assert_eq!(
        show(named(Some("a"), Some("b")).generate_updates(named(Some("a"), Some("b")))),
        Vec::<String>::new()
    );
    assert_eq!(
        show(named(Some("a"), None).generate_updates(named(Some("x"), Some("y")))),
        vec!["RealName(Some(\"y\"))", "DisplayName(Some(\"x\"))"]
    );
    assert_eq!(
        show(named(Some("a"), Some("b")).generate_updates(named(None, Some("b")))),
        vec!["DisplayName(None)"]
    );
    assert_eq!(
        show(named(Some("a"), Some("b")).generate_updates(named(Some("a"), None))),
        vec!["RealName(None)"]
    );
    // the updates give the old profile the names of the new one
    let old = named(Some("a"), None);
    let new = named(None, Some("r"));
    let mut got = named(Some("a"), None);
    for u in old.generate_updates(new) {
        got = got.apply(u);
    }
    assert_eq!((got.display_name, got.real_name), (None, Some("r".to_string())));
}

#[test]
fn sessions() {
    let (mut q, auths) = core_with(&[1]);
    let auth = auths[0].clone();
    assert_eq!((auth.0, auth.1.as_str()), (id(1), "token-1"));
    assert_eq!(q.trusted(&auth).unwrap(), (id(1), "token-1".to_string()));
    assert_eq!(q.trusted(&UserAuth(id(1), "guess".to_string())), Err(Error::NotAuthorised));
    assert_eq!(q.trusted(&UserAuth(id(2), "token-1".to_string())), Err(Error::NotAuthorised));
    // an identity is given once
    assert!(matches!(q.user_create(id(1), "pw", "t".to_string()), Err(Error::InvalidPayload)));

    // a second login hands out the session that there is
    let again = q.user_login(id(1), "123456", "unused".to_string()).unwrap();
    assert_eq!(again.1, "token-1");
    assert!(matches!(q.user_login(id(1), "wrong", "t".to_string()), Err(Error::NotAuthorised)));
    assert!(matches!(q.user_login(id(9), "123456", "t".to_string()), Err(Error::NoUser)));

    assert_eq!(q.user_logout(&UserAuth(id(1), "guess".to_string())), Err(Error::NotAuthorised));
    assert_eq!(q.user_logout(&auth), Ok(()));
    assert_eq!(q.trusted(&auth), Err(Error::NotAuthorised));
    assert_eq!(q.user_logout(&auth), Err(Error::NotAuthorised));
    let fresh = q.user_login(id(1), "123456", "second".to_string()).unwrap();
    assert_eq!(fresh.1, "second");

    assert_eq!(q.user_change_pw(&auth, "new"), Err(Error::NotAuthorised));
    assert_eq!(q.user_change_pw(&fresh, "new"), Ok(()));
    q.user_logout(&fresh).unwrap();
    assert!(matches!(q.user_login(id(1), "123456", "t".to_string()), Err(Error::NotAuthorised)));
    let last = q.user_login(id(1), "new", "third".to_string()).unwrap();

    assert_eq!(q.user_delete(&fresh), Err(Error::NotAuthorised));
    assert_eq!(q.user_delete(&last), Ok(()));
    assert!(matches!(q.user_get(id(1)), Err(Error::NoUser)));
    assert!(matches!(q.user_login(id(1), "new", "t".to_string()), Err(Error::NoUser)));
}

#[test]
fn users_are_listed_and_updated() {
    let (mut q, auths) = core_with(&[1, 2]);
    q.discover(UserProfile::new(id(3)).apply(UserUpdate::DisplayName(Some("far".to_string()))));
    q.discover(UserProfile::new(id(1)).apply(UserUpdate::DisplayName(Some("fake".to_string()))));
    let ids = |v: Vec<UserProfile>| {
        let mut v: Vec<u8> = v.iter().map(|p| p.id.as_bytes()[0]).collect();
        v.sort();
        v
    };
    assert_eq!(ids(q.user_list(Listing::All)), vec![1, 2, 3]);
    assert_eq!(ids(q.user_list(Listing::Local)), vec![1, 2]);
    assert_eq!(ids(q.user_list(Listing::Remote)), vec![3]);
    // a user of another node cannot log in
    assert!(matches!(q.user_login(id(3), "", "t".to_string()), Err(Error::NoUser)));
    assert!(q.user_get(id(1)).unwrap().display_name.is_none());
    assert_eq!(q.user_get(id(3)).unwrap().display_name.as_deref(), Some("far"));

    q.user_update(&auths[0], UserUpdate::RealName(Some("One".to_string()))).unwrap();
    assert_eq!(q.user_get(id(1)).unwrap().real_name.as_deref(), Some("One"));
    assert!(q.user_get(id(2)).unwrap().real_name.is_none());
    assert_eq!(
        q.user_update(&UserAuth(id(2), "token-1".to_string()), UserUpdate::RealName(None)),
        Err(Error::NotAuthorised)
    );
}

#[test]
fn contact_books() {
    let (mut q, auths) = core_with(&[1, 2]);
    let me = auths[0].clone();
    let stranger = UserAuth(id(1), "guess".to_string());
    assert_eq!(q.contact_all(&me).unwrap(), vec![]);
    assert!(matches!(q.contact_get(&me, &id(5)), Err(Error::NoContact)));
    assert!(matches!(q.contact_get(&stranger, &id(5)), Err(Error::NotAuthorised)));
    assert_eq!(q.contact_modify(&stranger, id(5), vec![]), Err(Error::NotAuthorised));

    q.contact_modify(
        &me,
        id(5),
        vec![
            ContactUpdate::Nick(Some("buddy".to_string())),
            ContactUpdate::Trust(10),
            ContactUpdate::Met(true),
            ContactUpdate::Trust(20),
            ContactUpdate::Notes(Some("met at the congress".to_string())),
        ],
    )
    .unwrap();
    Contacts::modify(&mut q, me.clone(), &id(6), vec![ContactUpdate::Location(Some("Berlin".to_string()))]).unwrap();
    q.contact_modify(&me, id(7), vec![]).unwrap();
    q.contact_modify(&me, id(5), vec![ContactUpdate::Location(Some("Berlin".to_string()))]).unwrap();

    let c = q.contact_get(&me, &id(5)).unwrap();
    assert_eq!(c.nick.as_deref(), Some("buddy"));
    assert_eq!((c.trust, c.met), (20, true));
    assert_eq!(c.location.as_deref(), Some("Berlin"));
    let blank = q.contact_get(&me, &id(7)).unwrap();
    assert_eq!(format!("{:?}", blank), format!("{:?}", ContactEntry::default()));

    let scope = Contacts { q: &q };
    let sorted = |mut v: Vec<Identity>| {
        v.sort();
        v
    };
    assert_eq!(sorted(scope.all(me.clone()).unwrap()), vec![id(5), id(6), id(7)]);
    assert_eq!(scope.query(me.clone(), ContactQuery::Nick("buddy".to_string())).unwrap(), vec![id(5)]);
    assert_eq!(scope.query(me.clone(), ContactQuery::Nick("bud".to_string())).unwrap(), vec![]);
    assert_eq!(
        sorted(scope.query(me.clone(), ContactQuery::Location("Berlin".to_string())).unwrap()),
        vec![id(5), id(6)]
    );
    assert_eq!(sorted(scope.query(me.clone(), ContactQuery::Met(false)).unwrap()), vec![id(6), id(7)]);
    assert_eq!(scope.query(me.clone(), ContactQuery::Notes("congress".to_string())).unwrap(), vec![id(5)]);
    assert_eq!(scope.query(me.clone(), ContactQuery::Trust { val: 15, fuz: 5 }).unwrap(), vec![id(5)]);
    assert_eq!(scope.query(me.clone(), ContactQuery::Trust { val: 15, fuz: 4 }).unwrap(), vec![]);
    assert_eq!(
        sorted(scope.query(me.clone(), ContactQuery::Trust { val: -128, fuz: 127 }).unwrap()),
        vec![]
    );
    assert_eq!(
        sorted(scope.query(me.clone(), ContactQuery::Trust { val: 0, fuz: 0 }).unwrap()),
        vec![id(6), id(7)]
    );
    assert!(matches!(scope.all(stranger.clone()), Err(Error::NotAuthorised)));
    assert!(matches!(scope.query(stranger, ContactQuery::Met(true)), Err(Error::NotAuthorised)));
    assert_eq!(scope.get(me.clone(), &id(6)).unwrap().location.as_deref(), Some("Berlin"));
    assert!(std::ptr::eq(scope.drop(), &q));
    // the book of another user is another book
    assert_eq!(q.contact_all(&auths[1]).unwrap(), vec![]);
}

#[test]
fn services_and_messages() {
    let (mut q, auths) = core_with(&[1, 2]);
    let me = auths[0].clone();
    assert_eq!(q.unregister_service("chat"), Err(Error::NoService));
    assert_eq!(q.register_service("chat"), Ok(()));
    assert_eq!(q.register_service("chat"), Err(Error::ServiceExists));

    let sent = q
        .message_send(&me, id(50), Mode::Std(id(2)), "chat", TagSet::from(Tag::empty("t")), vec![1, 2])
        .unwrap();
    assert_eq!((sent.id, sent.sender), (id(50), id(1)));
    assert_eq!(sent.associator, "chat");
    assert!(q.messages().probe_id(id(1), id(50)));
    assert!(matches!(
        q.message_send(&me, id(51), Mode::Flood, "files", TagSet::empty(), vec![]),
        Err(Error::NoService)
    ));
    assert!(matches!(
        q.message_send(&UserAuth(id(1), "x".to_string()), id(51), Mode::Flood, "chat", TagSet::empty(), vec![]),
        Err(Error::NotAuthorised)
    ));
    assert!(matches!(
        q.message_send(&me, id(50), Mode::Std(id(2)), "chat", TagSet::empty(), vec![]),
        Err(Error::InvalidPayload)
    ));
    q.message_send(&auths[1], id(52), Mode::Flood, "chat", TagSet::empty(), vec![3]).unwrap();

    let found = q.message_query(&me, Service::Name("chat".to_string()), MsgQuery::new()).unwrap();
    let mut payloads: Vec<Vec<u8>> = found.into_iter().map(|m| m.payload).collect();
    payloads.sort();
    assert_eq!(payloads, vec![vec![1, 2], vec![3]]);
    assert!(matches!(
        q.message_query(&UserAuth(id(2), "x".to_string()), Service::God, MsgQuery::new()),
        Err(Error::NotAuthorised)
    ));

    let sub = q.message_subscribe(&me, Service::God, TagSet::empty()).unwrap();
    assert!(q.message_next(&me, &sub).unwrap().is_none());
    q.message_send(&me, id(53), Mode::Std(id(2)), "chat", TagSet::empty(), vec![9]).unwrap();
    assert_eq!(q.message_next(&me, &sub).unwrap().unwrap().payload, vec![9]);
    assert!(matches!(q.message_next(&UserAuth(id(1), "x".to_string()), &sub), Err(Error::NotAuthorised)));
    assert!(matches!(
        q.message_subscribe(&UserAuth(id(1), "x".to_string()), Service::God, TagSet::empty()),
        Err(Error::NotAuthorised)
    ));
    assert_eq!(q.unregister_service("chat"), Ok(()));
}

#[test]
fn the_kind_of_a_grant() {
    assert_eq!(UserGrant::kind(), "user_grant");
    assert_eq!(UserGrant {}, UserGrant {});
}
