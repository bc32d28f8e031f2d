use libqaul::contacts::{ContactQuery, ContactUpdate};
use libqaul::error::Error;
use libqaul::identity::Identity;
use libqaul::messages::{Mode, MsgQuery, Service};
use libqaul::qaul::Qaul;
use libqaul::rpc::contacts as rpc_contacts;
use libqaul::rpc::envelope::{Envelope, EnvelopeType, Request, Response};
use libqaul::rpc::messages as rpc_messages;
use libqaul::rpc::responder::{Fresh, Responder};
use libqaul::rpc::users as rpc_users;
use libqaul::store::library::Library;
use libqaul::tags::{Tag, TagSet};
use libqaul::users::{UserAuth, UserProfile, UserUpdate};

fn id(n: u8) -> Identity {
    Identity::from_bytes(&[n; 32]).unwrap()
}

fn fresh(n: u8) -> Fresh {
    Fresh { id: id(n), token: format!("token-{}", n) }
}

fn responder() -> Responder {
    Responder { qaul: Qaul::new(Library::new()) }
}

fn create(r: &mut Responder, n: u8) -> UserAuth {
    match r.respond(Request::UserCreate(rpc_users::Create { pw: "123456".to_string() }), fresh(n)) {
        Response::Auth(a) => a,
        other => panic!("{:?}", other),
    }
}

fn error_text(r: Response) -> String {
    match r {
        Response::Error(s) => s,
        other => panic!("{:?}", other),
    }
}

#[test]
fn the_id_of_an_envelope_is_echoed() {
    let mut r = responder();
    for (n, id) in ["/user/create", "", "ünïcode ✓", "42"].iter().enumerate() {
        let env = Envelope {
            id: id.to_string(),
            data: EnvelopeType::Request(Request::UserCreate(rpc_users::Create { pw: "pw".to_string() })),
        };
        let back = r.handle(env, fresh(n as u8));
        assert_eq!(back.id, *id);
        assert!(matches!(back.data, EnvelopeType::Response(Response::Auth(_))));
    }
    // a failing request is answered under its id too
    let env = Envelope {
        id: "again".to_string(),
        data: EnvelopeType::Request(Request::UserCreate(rpc_users::Create { pw: "pw".to_string() })),
    };
    let back = r.handle(env, fresh(0));
    assert_eq!(back.id, "again");
    match back.data {
        EnvelopeType::Response(resp) => assert_eq!(error_text(resp), "Invalid payload (probably too big)"),
        other => panic!("{:?}", other),
    }
    // an envelope that holds a response is no request
    let env = Envelope { id: "odd".to_string(), data: EnvelopeType::Response(Response::Success) };
    let back = r.handle(env, fresh(9));
    assert_eq!(back.id, "odd");
    assert!(matches!(back.data, EnvelopeType::Response(Response::Error(_))));
    assert!(matches!(
        r.respond(Request::UserGet(rpc_users::Get { user: id(9) }), fresh(0)),
        Response::Error(_)
    ));
}

#[test]
fn user_requests() {
    let mut r = responder();
    let a = create(&mut r, 1);
    assert_eq!((a.0, a.1.as_str()), (id(1), "token-1"));
    let b = create(&mut r, 2);
    r.qaul.discover(UserProfile::new(id(3)));

    let count = |resp: Response| match resp {
        Response::User(v) => v.len(),
        other => panic!("{:?}", other),
    };
    assert_eq!(count(r.respond(Request::UserList(rpc_users::List {}), fresh(0))), 3);
    assert_eq!(count(r.respond(Request::UserListLocal(rpc_users::ListLocal {}), fresh(0))), 2);
    assert_eq!(count(r.respond(Request::UserListRemote(rpc_users::ListRemote {}), fresh(0))), 1);

    let resp = r.respond(
        Request::UserUpdate(rpc_users::Update {
            auth: a.clone(),
            update: UserUpdate::DisplayName(Some("alice".to_string())),
        }),
        fresh(0),
    );
    assert!(matches!(resp, Response::Success));
    match r.respond(Request::UserGet(rpc_users::Get { user: id(1) }), fresh(0)) {
        Response::User(v) => {
            assert_eq!(v.len(), 1);
            assert_eq!(v[0].display_name.as_deref(), Some("alice"));
        }
        other => panic!("{:?}", other),
    }
    assert_eq!(
        error_text(r.respond(Request::UserGet(rpc_users::Get { user: id(9) }), fresh(0))),
        Error::NoUser.to_string()
    );

    let wrong = UserAuth(id(1), "guess".to_string());
    for req in [
        Request::UserUpdate(rpc_users::Update { auth: wrong.clone(), update: UserUpdate::RealName(None) }),
        Request::UserLogout(rpc_users::Logout { auth: wrong.clone() }),
        Request::UserDelete(rpc_users::Delete { auth: wrong.clone() }),
        Request::UserChangePw(rpc_users::ChangePw { auth: wrong.clone(), new_pw: "x".to_string() }),
    ] {
        assert_eq!(error_text(r.respond(req, fresh(0))), "Not authorised to perform this action");
    }

    assert!(matches!(
        r.respond(
            Request::UserChangePw(rpc_users::ChangePw { auth: a.clone(), new_pw: "secret".to_string() }),
            fresh(0)
        ),
        Response::Success
    ));
    assert!(matches!(r.respond(Request::UserLogout(rpc_users::Logout { auth: a.clone() }), fresh(0)), Response::Success));
    assert_eq!(
        error_text(r.respond(
            Request::UserLogin(rpc_users::Login { user: id(1), pw: "123456".to_string() }),
            fresh(7)
        )),
        Error::NotAuthorised.to_string()
    );
    let again = match r.respond(
        Request::UserLogin(rpc_users::Login { user: id(1), pw: "secret".to_string() }),
        fresh(7),
    ) {
        Response::Auth(a) => a,
        other => panic!("{:?}", other),
    };
    assert_eq!((again.0, again.1.as_str()), (id(1), "token-7"));
    assert!(matches!(r.respond(Request::UserDelete(rpc_users::Delete { auth: b }), fresh(0)), Response::Success));
    assert_eq!(count(r.respond(Request::UserList(rpc_users::List {}), fresh(0))), 2);
}

#[test]
fn contact_requests() {
    let mut r = responder();
    let a = create(&mut r, 1);
    let resp = r.respond(
        Request::ContactModify(rpc_contacts::Modify {
            auth: a.clone(),
            contact: id(5),
            lambda: vec![ContactUpdate::Nick(Some("five".to_string())), ContactUpdate::Met(true)],
        }),
        fresh(0),
    );
    assert!(matches!(resp, Response::Success));
    match r.respond(Request::ContactGet(rpc_contacts::Get { auth: a.clone(), contact: id(5) }), fresh(0)) {
        Response::Contact(v) => {
            assert_eq!(v.len(), 1);
            assert_eq!(v[0].nick.as_deref(), Some("five"));
            assert!(v[0].met);
        }
        other => panic!("{:?}", other),
    }
    assert_eq!(
        error_text(r.respond(Request::ContactGet(rpc_contacts::Get { auth: a.clone(), contact: id(6) }), fresh(0))),
        "The desired contact does not exist"
    );
    match r.respond(Request::ContactAll(rpc_contacts::All { auth: a.clone() }), fresh(0)) {
        Response::UserId(v) => assert_eq!(v, vec![id(5)]),
        other => panic!("{:?}", other),
    }
    match r.respond(
        Request::ContactQuery(rpc_contacts::Query { auth: a.clone(), query: ContactQuery::Met(false) }),
        fresh(0),
    ) {
        Response::UserId(v) => assert_eq!(v, vec![]),
        other => panic!("{:?}", other),
    }
    let wrong = UserAuth(id(1), "guess".to_string());
    assert_eq!(
        error_text(r.respond(Request::ContactAll(rpc_contacts::All { auth: wrong }), fresh(0))),
        "Not authorised to perform this action"
    );
}

#[test]
fn message_requests() {
    let mut r = responder();
    let a = create(&mut r, 1);
    r.qaul.register_service("chat").unwrap();
    let sub = match r.respond(
        Request::MsgSub(rpc_messages::Subscribe {
            auth: a.clone(),
            service: Service::Name("chat".to_string()),
            tags: TagSet::empty(),
        }),
        fresh(0),
    ) {
        Response::Subscription(s) => s,
        other => panic!("{:?}", other),
    };
    match r.respond(Request::MsgNext(rpc_messages::Next { auth: a.clone(), sub }), fresh(0)) {
        Response::Message(v) => assert!(v.is_empty()),
        other => panic!("{:?}", other),
    }
    let send = |r: &mut Responder, n: u8, service: &str, text: &str| {
        r.respond(
            Request::MsgSend(rpc_messages::Send {
                auth: a.clone(),
                mode: Mode::Std(id(2)),
                service: service.to_string(),
                tags: TagSet::from(Tag::empty("room")),
                payload: text.as_bytes().to_vec(),
            }),
            fresh(n),
        )
    };
    match send(&mut r, 40, "chat", "hello world!") {
        Response::MsgId(m) => assert_eq!(m, id(40)),
        other => panic!("{:?}", other),
    }
    assert_eq!(error_text(send(&mut r, 41, "voice", "x")), "No such service was found");
    assert_eq!(error_text(send(&mut r, 40, "chat", "twice")), "Invalid payload (probably too big)");

    match r.respond(
        Request::MsgQuery(rpc_messages::Query {
            auth: a.clone(),
            service: Service::Name("chat".to_string()),
            query: MsgQuery::new().tag(Tag::empty("room")),
        }),
        fresh(0),
    ) {
        Response::Message(v) => {
            assert_eq!(v.len(), 1);
            assert_eq!(v.last().unwrap().payload, b"hello world!");
        }
        other => panic!("{:?}", other),
    }
    match r.respond(Request::MsgNext(rpc_messages::Next { auth: a.clone(), sub }), fresh(0)) {
        Response::Message(v) => {
            assert_eq!(v.len(), 1);
            assert_eq!(v[0].payload, b"hello world!");
            assert_eq!(v[0].id, id(40));
        }
        other => panic!("{:?}", other),
    }
    let wrong = UserAuth(id(1), "guess".to_string());
    assert_eq!(
        error_text(r.respond(
            Request::MsgQuery(rpc_messages::Query { auth: wrong, service: Service::God, query: MsgQuery::new() }),
            fresh(0)
        )),
        "Not authorised to perform this action"
    );
}

#[test]
fn results_become_responses() {
    assert!(matches!(Response::from(()), Response::Success));
    assert!(matches!(Response::from(UserAuth(id(1), "t".to_string())), Response::Auth(_)));
    assert!(matches!(Response::from(UserProfile::new(id(1))), Response::User(v) if v.len() == 1));
    assert!(matches!(Response::from(vec![UserProfile::new(id(1)), UserProfile::new(id(2))]), Response::User(v) if v.len() == 2));
    assert!(matches!(Response::from(Vec::<libqaul::messages::Message>::new()), Response::Message(v) if v.is_empty()));
    let ok: Result<(), Error> = Ok(());
    assert!(matches!(Response::from(ok), Response::Success));
    let err: Result<(), Error> = Err(Error::NoRoute);
    assert_eq!(error_text(Response::from(err)), "Failed to find a route to this user");
    assert_eq!(error_text(Response::error(Error::CommFault)), Error::CommFault.message());
    assert!(matches!(Response::confirm(Ok(())), Response::Success));
    assert_eq!(error_text(Response::confirm(Err(Error::NoData))), Error::NoData.message());
}

#[test]
fn bodies_are_answered_with_a_status() {
    let mut r = responder();
    let env = Envelope {
        id: "1".to_string(),
        data: EnvelopeType::Request(Request::UserCreate(rpc_users::Create { pw: "pw".to_string() })),
    };
    let (status, out) = r.serve(Ok(env), fresh(1));
    assert_eq!(status, 200);
    assert_eq!(out.unwrap().id, "1");
    // an error of the core is an answer all the same
    let env = Envelope {
        id: "2".to_string(),
        data: EnvelopeType::Request(Request::UserCreate(rpc_users::Create { pw: "pw".to_string() })),
    };
    let (status, out) = r.serve(Ok(env), fresh(1));
    assert_eq!(status, 200);
    match out.unwrap().data {
        EnvelopeType::Response(Response::Error(_)) => {}
        other => panic!("{:?}", other),
    }
    let (status, out) = r.serve(Err("Malformed json envelope".to_string()), fresh(2));
    assert_eq!(status, 500);
    assert_eq!(out.unwrap_err(), "Malformed json envelope");
    assert!(matches!(
        r.respond(Request::UserGet(rpc_users::Get { user: id(2) }), fresh(0)),
        Response::Error(_)
    ));
}
