//! The responder: it carries a request out on the core and wraps what
//! comes back into a response.

use crate::contacts::ContactEntry;
use crate::error::Error;
use crate::identity::Identity;
use crate::messages::Message;
use crate::qaul::{
    contact_all_post, contact_get_post, contact_modify_post, contact_query_post,
    message_next_post, message_query_post, message_send_post, message_subscribe_post,
    user_change_pw_post, user_create_post, user_delete_post, user_get_post, user_list_post,
    user_login_post, user_logout_post, user_update_post, Listing, Qaul, QaulView,
};
use crate::rpc::envelope::{confirms, tells, Envelope, EnvelopeType, Request, Response};
use crate::store::library::Subscription;
use crate::users::{Token, UserAuth, UserProfile};
use vstd::prelude::*;

verus! {

/// What the caller has made by chance for a request that may need it:
/// the identity of a new user or message, and the token of a new
/// session.
#[derive(Debug)]
pub struct Fresh {
    pub id: Identity,
    pub token: Token,
}

/// `r` hands out the session that `res` holds, or tells of its error.
pub open spec fn shows_auth(r: Response, res: Result<UserAuth, Error>) -> bool {
    match res {
        Ok(a) => r matches Response::Auth(x) && x == a,
        Err(e) => tells(r, e),
    }
}

/// `r` hands out the one profile that `res` holds, or tells of its error.
pub open spec fn shows_user(r: Response, res: Result<UserProfile, Error>) -> bool {
    match res {
        Ok(p) => r matches Response::User(v) && v@ == seq![p],
        Err(e) => tells(r, e),
    }
}

/// `r` hands out the one entry that `res` holds, or tells of its error.
pub open spec fn shows_contact(r: Response, res: Result<ContactEntry, Error>) -> bool {
    match res {
        Ok(c) => r matches Response::Contact(v) && v@ == seq![c],
        Err(e) => tells(r, e),
    }
}

/// `r` hands out the identities that `res` holds, or tells of its error.
pub open spec fn shows_ids(r: Response, res: Result<Vec<Identity>, Error>) -> bool {
    match res {
        Ok(ids) => r matches Response::UserId(v) && v == ids,
        Err(e) => tells(r, e),
    }
}

/// `r` hands out the id of the message that `res` holds, or tells of its
/// error.
pub open spec fn shows_msg_id(r: Response, res: Result<Message, Error>) -> bool {
    match res {
        Ok(m) => r matches Response::MsgId(id) && id == m.id,
        Err(e) => tells(r, e),
    }
}

/// `r` hands out the messages that `res` holds, or tells of its error.
pub open spec fn shows_msgs(r: Response, res: Result<Vec<Message>, Error>) -> bool {
    match res {
        Ok(msgs) => r matches Response::Message(v) && v == msgs,
        Err(e) => tells(r, e),
    }
}

/// `r` hands out the message that `res` holds, or none where it holds
/// none, or tells of its error.
pub open spec fn shows_next(r: Response, res: Result<Option<Message>, Error>) -> bool {
    match res {
        Ok(Some(m)) => r matches Response::Message(v) && v@ == seq![m],
        Ok(None) => r matches Response::Message(v) && v@.len() == 0,
        Err(e) => tells(r, e),
    }
}

/// `r` confirms the subscription that `res` holds, or tells of its error.
pub open spec fn shows_sub(r: Response, res: Result<Subscription, Error>) -> bool {
    match res {
        Ok(s) => r matches Response::Subscription(x) && x == s,
        Err(e) => tells(r, e),
    }
}

/// What answers the request `UserList`.
pub open spec fn user_list_done(
    before: QaulView,
    req: crate::rpc::users::List,
    fresh: Fresh,
    r: Response,
    after: QaulView,
) -> bool {
        &&& r matches Response::User(v)
        &&& user_list_post(before, Listing::All, v, after)
        &&& after == before
    
}

/// What answers the request `UserListLocal`.
pub open spec fn user_list_local_done(
    before: QaulView,
    req: crate::rpc::users::ListLocal,
    fresh: Fresh,
    r: Response,
    after: QaulView,
) -> bool {
        &&& r matches Response::User(v)
        &&& user_list_post(before, Listing::Local, v, after)
        &&& after == before
    
}

/// What answers the request `UserListRemote`.
pub open spec fn user_list_remote_done(
    before: QaulView,
    req: crate::rpc::users::ListRemote,
    fresh: Fresh,
    r: Response,
    after: QaulView,
) -> bool {
        &&& r matches Response::User(v)
        &&& user_list_post(before, Listing::Remote, v, after)
        &&& after == before
    
}

/// What answers the request `UserCreate`.
pub open spec fn user_create_done(
    before: QaulView,
    c: crate::rpc::users::Create,
    fresh: Fresh,
    r: Response,
    after: QaulView,
) -> bool {
    exists|res: Result<UserAuth, Error>|
        #[trigger] user_create_post(before, fresh.id, c.pw@, fresh.token, res, after)
            && shows_auth(r, res)
}

/// What answers the request `UserLogin`.
pub open spec fn user_login_done(
    before: QaulView,
    l: crate::rpc::users::Login,
    fresh: Fresh,
    r: Response,
    after: QaulView,
) -> bool {
    exists|res: Result<UserAuth, Error>|
        #[trigger] user_login_post(before, l.user, l.pw@, fresh.token, res, after)
            && shows_auth(r, res)
}

/// What answers the request `UserLogout`.
pub open spec fn user_logout_done(
    before: QaulView,
    l: crate::rpc::users::Logout,
    fresh: Fresh,
    r: Response,
    after: QaulView,
) -> bool {
    exists|res: Result<(), Error>|
        #[trigger] user_logout_post(before, &l.auth, res, after) && confirms(r, res)
}

/// What answers the request `UserDelete`.
pub open spec fn user_delete_done(
    before: QaulView,
    d: crate::rpc::users::Delete,
    fresh: Fresh,
    r: Response,
    after: QaulView,
) -> bool {
    exists|res: Result<(), Error>|
        #[trigger] user_delete_post(before, &d.auth, res, after) && confirms(r, res)
}

/// What answers the request `UserChangePw`.
pub open spec fn user_change_pw_done(
    before: QaulView,
    c: crate::rpc::users::ChangePw,
    fresh: Fresh,
    r: Response,
    after: QaulView,
) -> bool {
    exists|res: Result<(), Error>|
        #[trigger] user_change_pw_post(before, &c.auth, c.new_pw@, res, after) && confirms(
            r,
            res,
        )
}

/// What answers the request `UserGet`.
pub open spec fn user_get_done(
    before: QaulView,
    g: crate::rpc::users::Get,
    fresh: Fresh,
    r: Response,
    after: QaulView,
) -> bool {
    exists|res: Result<UserProfile, Error>|
        #[trigger] user_get_post(before, g.user, res, after) && shows_user(r, res) && after
            == before
}

/// What answers the request `UserUpdate`.
pub open spec fn user_update_done(
    before: QaulView,
    u: crate::rpc::users::Update,
    fresh: Fresh,
    r: Response,
    after: QaulView,
) -> bool {
    exists|res: Result<(), Error>|
        #[trigger] user_update_post(before, &u.auth, u.update, res, after) && confirms(r, res)
}

/// What answers the request `ContactModify`.
pub open spec fn contact_modify_done(
    before: QaulView,
    m: crate::rpc::contacts::Modify,
    fresh: Fresh,
    r: Response,
    after: QaulView,
) -> bool {
    exists|res: Result<(), Error>|
        #[trigger] contact_modify_post(before, &m.auth, m.contact, m.lambda, res, after)
            && confirms(r, res)
}

/// What answers the request `ContactGet`.
pub open spec fn contact_get_done(
    before: QaulView,
    g: crate::rpc::contacts::Get,
    fresh: Fresh,
    r: Response,
    after: QaulView,
) -> bool {
    exists|res: Result<ContactEntry, Error>|
        #[trigger] contact_get_post(before, &g.auth, &g.contact, res, after) && shows_contact(
            r,
            res,
        ) && after == before
}

/// What answers the request `ContactQuery`.
pub open spec fn contact_query_done(
    before: QaulView,
    q: crate::rpc::contacts::Query,
    fresh: Fresh,
    r: Response,
    after: QaulView,
) -> bool {
    exists|res: Result<Vec<Identity>, Error>|
        #[trigger] contact_query_post(before, &q.auth, &q.query, res, after) && shows_ids(
            r,
            res,
        ) && after == before
}

/// What answers the request `ContactAll`.
pub open spec fn contact_all_done(
    before: QaulView,
    a: crate::rpc::contacts::All,
    fresh: Fresh,
    r: Response,
    after: QaulView,
) -> bool {
    exists|res: Result<Vec<Identity>, Error>|
        #[trigger] contact_all_post(before, &a.auth, res, after) && shows_ids(r, res) && after
            == before
}

/// What answers the request `MsgSend`.
pub open spec fn msg_send_done(
    before: QaulView,
    s: crate::rpc::messages::Send,
    fresh: Fresh,
    r: Response,
    after: QaulView,
) -> bool {
    exists|res: Result<Message, Error>|
        #[trigger] message_send_post(
            before,
            &s.auth,
            fresh.id,
            s.mode,
            s.service@,
            s.tags,
            s.payload,
            res,
            after,
        ) && shows_msg_id(r, res)
}

/// What answers the request `MsgQuery`.
pub open spec fn msg_query_done(
    before: QaulView,
    q: crate::rpc::messages::Query,
    fresh: Fresh,
    r: Response,
    after: QaulView,
) -> bool {
    exists|res: Result<Vec<Message>, Error>|
        #[trigger] message_query_post(before, &q.auth, q.service, q.query, res, after)
            && shows_msgs(r, res) && after == before
}

/// What answers the request `MsgSub`.
pub open spec fn msg_sub_done(
    before: QaulView,
    s: crate::rpc::messages::Subscribe,
    fresh: Fresh,
    r: Response,
    after: QaulView,
) -> bool {
    exists|res: Result<Subscription, Error>|
        #[trigger] message_subscribe_post(before, &s.auth, s.service, s.tags, res, after)
            && shows_sub(r, res)
}

/// What answers the request `MsgNext`.
pub open spec fn msg_next_done(
    before: QaulView,
    n: crate::rpc::messages::Next,
    fresh: Fresh,
    r: Response,
    after: QaulView,
) -> bool {
    exists|res: Result<Option<Message>, Error>|
        #[trigger] message_next_post(before, &n.auth, &n.sub, res, after) && shows_next(r, res)
}

/// `r` is the response to `req` on a core that was `before` and is
/// `after`: the request was carried out by the function of the core
/// that it names, and `r` wraps what came back. A request that only
/// reads leaves the core as it was.
pub open spec fn responds(
    before: QaulView,
    req: Request,
    fresh: Fresh,
    r: Response,
    after: QaulView,
) -> bool {
    match req {
        Request::UserList(p) => user_list_done(before, p, fresh, r, after),
        Request::UserListLocal(p) => user_list_local_done(before, p, fresh, r, after),
        Request::UserListRemote(p) => user_list_remote_done(before, p, fresh, r, after),
        Request::UserCreate(p) => user_create_done(before, p, fresh, r, after),
        Request::UserLogin(p) => user_login_done(before, p, fresh, r, after),
        Request::UserLogout(p) => user_logout_done(before, p, fresh, r, after),
        Request::UserDelete(p) => user_delete_done(before, p, fresh, r, after),
        Request::UserChangePw(p) => user_change_pw_done(before, p, fresh, r, after),
        Request::UserGet(p) => user_get_done(before, p, fresh, r, after),
        Request::UserUpdate(p) => user_update_done(before, p, fresh, r, after),
        Request::ContactModify(p) => contact_modify_done(before, p, fresh, r, after),
        Request::ContactGet(p) => contact_get_done(before, p, fresh, r, after),
        Request::ContactQuery(p) => contact_query_done(before, p, fresh, r, after),
        Request::ContactAll(p) => contact_all_done(before, p, fresh, r, after),
        Request::MsgSend(p) => msg_send_done(before, p, fresh, r, after),
        Request::MsgQuery(p) => msg_query_done(before, p, fresh, r, after),
        Request::MsgSub(p) => msg_sub_done(before, p, fresh, r, after),
        Request::MsgNext(p) => msg_next_done(before, p, fresh, r, after),
    }
}

/// The RPC responder: the core, and the way into it for requests.
#[derive(Debug)]
pub struct Responder {
    pub qaul: Qaul,
}

fn one<T>(t: T) -> (v: Vec<T>)
    ensures
        v@ == seq![t],
{
    let mut v: Vec<T> = Vec::new();
    v.push(t);
    assert(v@ =~= seq![t]);
    v
}

impl Responder {
    fn user_list(&mut self, _req: crate::rpc::users::List, fresh: Fresh) -> (r: Response)
        ensures
            user_list_done(old(self).qaul@, _req, fresh, r, final(self).qaul@),
    {
        let ghost before = self.qaul@;
        Response::User(self.qaul.user_list(Listing::All))
    }

    fn user_list_local(&mut self, _req: crate::rpc::users::ListLocal, fresh: Fresh) -> (r: Response)
        ensures
            user_list_local_done(old(self).qaul@, _req, fresh, r, final(self).qaul@),
    {
        let ghost before = self.qaul@;
        Response::User(self.qaul.user_list(Listing::Local))
    }

    fn user_list_remote(&mut self, _req: crate::rpc::users::ListRemote, fresh: Fresh) -> (r: Response)
        ensures
            user_list_remote_done(old(self).qaul@, _req, fresh, r, final(self).qaul@),
    {
        let ghost before = self.qaul@;
        Response::User(self.qaul.user_list(Listing::Remote))
    }

    fn user_create(&mut self, c: crate::rpc::users::Create, fresh: Fresh) -> (r: Response)
        ensures
            user_create_done(old(self).qaul@, c, fresh, r, final(self).qaul@),
    {
        let ghost before = self.qaul@;
        let res = self.qaul.user_create(fresh.id, c.pw.as_str(), fresh.token);
        let ghost shown = res;
        let r = match res {
            Ok(a) => Response::Auth(a),
            Err(e) => Response::error(e),
        };
        assert(user_create_post(before, fresh.id, c.pw@, fresh.token, shown, self.qaul@)
            && shows_auth(r, shown));
        r
    }

    fn user_login(&mut self, l: crate::rpc::users::Login, fresh: Fresh) -> (r: Response)
        ensures
            user_login_done(old(self).qaul@, l, fresh, r, final(self).qaul@),
    {
        let ghost before = self.qaul@;
        let res = self.qaul.user_login(l.user, l.pw.as_str(), fresh.token);
        let ghost shown = res;
        let r = match res {
            Ok(a) => Response::Auth(a),
            Err(e) => Response::error(e),
        };
        assert(user_login_post(before, l.user, l.pw@, fresh.token, shown, self.qaul@)
            && shows_auth(r, shown));
        r
    }

    fn user_logout(&mut self, l: crate::rpc::users::Logout, fresh: Fresh) -> (r: Response)
        ensures
            user_logout_done(old(self).qaul@, l, fresh, r, final(self).qaul@),
    {
        let ghost before = self.qaul@;
        let res = self.qaul.user_logout(&l.auth);
        let r = Response::confirm(res);
        assert(user_logout_post(before, &l.auth, res, self.qaul@) && confirms(r, res));
        r
    }

    fn user_delete(&mut self, d: crate::rpc::users::Delete, fresh: Fresh) -> (r: Response)
        ensures
            user_delete_done(old(self).qaul@, d, fresh, r, final(self).qaul@),
    {
        let ghost before = self.qaul@;
        let res = self.qaul.user_delete(&d.auth);
        let r = Response::confirm(res);
        assert(user_delete_post(before, &d.auth, res, self.qaul@) && confirms(r, res));
        r
    }

    fn user_change_pw(&mut self, c: crate::rpc::users::ChangePw, fresh: Fresh) -> (r: Response)
        ensures
            user_change_pw_done(old(self).qaul@, c, fresh, r, final(self).qaul@),
    {
        let ghost before = self.qaul@;
        let res = self.qaul.user_change_pw(&c.auth, c.new_pw.as_str());
        let r = Response::confirm(res);
        assert(user_change_pw_post(before, &c.auth, c.new_pw@, res, self.qaul@)
            && confirms(r, res));
        r
    }

    fn user_get(&mut self, g: crate::rpc::users::Get, fresh: Fresh) -> (r: Response)
        ensures
            user_get_done(old(self).qaul@, g, fresh, r, final(self).qaul@),
    {
        let ghost before = self.qaul@;
        let res = self.qaul.user_get(g.user);
        let ghost shown = res;
        let r = match res {
            Ok(p) => Response::User(one(p)),
            Err(e) => Response::error(e),
        };
        assert(user_get_post(before, g.user, shown, self.qaul@) && shows_user(r, shown));
        r
    }

    fn user_update(&mut self, u: crate::rpc::users::Update, fresh: Fresh) -> (r: Response)
        ensures
            user_update_done(old(self).qaul@, u, fresh, r, final(self).qaul@),
    {
        let ghost before = self.qaul@;
        let ghost update = u.update;
        let res = self.qaul.user_update(&u.auth, u.update);
        let r = Response::confirm(res);
        assert(user_update_post(before, &u.auth, update, res, self.qaul@) && confirms(
            r,
            res,
        ));
        r
    }

    fn contact_modify(&mut self, m: crate::rpc::contacts::Modify, fresh: Fresh) -> (r: Response)
        ensures
            contact_modify_done(old(self).qaul@, m, fresh, r, final(self).qaul@),
    {
        let ghost before = self.qaul@;
        let ghost lambda = m.lambda;
        let res = self.qaul.contact_modify(&m.auth, m.contact, m.lambda);
        let r = Response::confirm(res);
        assert(contact_modify_post(before, &m.auth, m.contact, lambda, res, self.qaul@)
            && confirms(r, res));
        r
    }

    fn contact_get(&mut self, g: crate::rpc::contacts::Get, fresh: Fresh) -> (r: Response)
        ensures
            contact_get_done(old(self).qaul@, g, fresh, r, final(self).qaul@),
    {
        let ghost before = self.qaul@;
        let res = self.qaul.contact_get(&g.auth, &g.contact);
        let ghost shown = res;
        let r = match res {
            Ok(c) => Response::Contact(one(c)),
            Err(e) => Response::error(e),
        };
        assert(contact_get_post(before, &g.auth, &g.contact, shown, self.qaul@)
            && shows_contact(r, shown));
        r
    }

    fn contact_query(&mut self, q: crate::rpc::contacts::Query, fresh: Fresh) -> (r: Response)
        ensures
            contact_query_done(old(self).qaul@, q, fresh, r, final(self).qaul@),
    {
        let ghost before = self.qaul@;
        let res = self.qaul.contact_query(&q.auth, &q.query);
        let ghost shown = res;
        let r = match res {
            Ok(ids) => Response::UserId(ids),
            Err(e) => Response::error(e),
        };
        assert(contact_query_post(before, &q.auth, &q.query, shown, self.qaul@)
            && shows_ids(r, shown));
        r
    }

    fn contact_all(&mut self, a: crate::rpc::contacts::All, fresh: Fresh) -> (r: Response)
        ensures
            contact_all_done(old(self).qaul@, a, fresh, r, final(self).qaul@),
    {
        let ghost before = self.qaul@;
        let res = self.qaul.contact_all(&a.auth);
        let ghost shown = res;
        let r = match res {
            Ok(ids) => Response::UserId(ids),
            Err(e) => Response::error(e),
        };
        assert(contact_all_post(before, &a.auth, shown, self.qaul@) && shows_ids(r, shown));
        r
    }

    fn msg_send(&mut self, s: crate::rpc::messages::Send, fresh: Fresh) -> (r: Response)
        ensures
            msg_send_done(old(self).qaul@, s, fresh, r, final(self).qaul@),
    {
        let ghost before = self.qaul@;
        let ghost tags = s.tags;
        let ghost payload = s.payload;
        let res = self.qaul.message_send(
            &s.auth,
            fresh.id,
            s.mode,
            s.service.as_str(),
            s.tags,
            s.payload,
        );
        let ghost shown = res;
        let r = match res {
            Ok(m) => Response::MsgId(m.id),
            Err(e) => Response::error(e),
        };
        assert(message_send_post(
            before,
            &s.auth,
            fresh.id,
            s.mode,
            s.service@,
            tags,
            payload,
            shown,
            self.qaul@,
        ) && shows_msg_id(r, shown));
        r
    }

    fn msg_query(&mut self, q: crate::rpc::messages::Query, fresh: Fresh) -> (r: Response)
        ensures
            msg_query_done(old(self).qaul@, q, fresh, r, final(self).qaul@),
    {
        let ghost before = self.qaul@;
        let ghost service = q.service;
        let ghost query = q.query;
        let res = self.qaul.message_query(&q.auth, q.service, q.query);
        let ghost shown = res;
        let r = match res {
            Ok(msgs) => Response::Message(msgs),
            Err(e) => Response::error(e),
        };
        assert(message_query_post(before, &q.auth, service, query, shown, self.qaul@)
            && shows_msgs(r, shown));
        r
    }

    fn msg_sub(&mut self, s: crate::rpc::messages::Subscribe, fresh: Fresh) -> (r: Response)
        ensures
            msg_sub_done(old(self).qaul@, s, fresh, r, final(self).qaul@),
    {
        let ghost before = self.qaul@;
        let ghost service = s.service;
        let ghost tags = s.tags;
        let res = self.qaul.message_subscribe(&s.auth, s.service, s.tags);
        let ghost shown = res;
        let r = match res {
            Ok(sub) => Response::Subscription(sub),
            Err(e) => Response::error(e),
        };
        assert(message_subscribe_post(before, &s.auth, service, tags, shown, self.qaul@)
            && shows_sub(r, shown));
        r
    }

    fn msg_next(&mut self, n: crate::rpc::messages::Next, fresh: Fresh) -> (r: Response)
        ensures
            msg_next_done(old(self).qaul@, n, fresh, r, final(self).qaul@),
    {
        let ghost before = self.qaul@;
        let res = self.qaul.message_next(&n.auth, &n.sub);
        let ghost shown = res;
        let r = match res {
            Ok(Some(m)) => Response::Message(one(m)),
            Ok(None) => Response::Message(Vec::new()),
            Err(e) => Response::error(e),
        };
        assert(message_next_post(before, &n.auth, &n.sub, shown, self.qaul@)
            && shows_next(r, shown));
        r
    }

    /// Carries a request out and wraps what comes back.
    pub fn respond(&mut self, req: Request, fresh: Fresh) -> (r: Response)
        ensures
            responds(old(self).qaul@, req, fresh, r, final(self).qaul@),
    {
        match req {
            Request::UserList(p) => self.user_list(p, fresh),
            Request::UserListLocal(p) => self.user_list_local(p, fresh),
            Request::UserListRemote(p) => self.user_list_remote(p, fresh),
            Request::UserCreate(p) => self.user_create(p, fresh),
            Request::UserLogin(p) => self.user_login(p, fresh),
            Request::UserLogout(p) => self.user_logout(p, fresh),
            Request::UserDelete(p) => self.user_delete(p, fresh),
            Request::UserChangePw(p) => self.user_change_pw(p, fresh),
            Request::UserGet(p) => self.user_get(p, fresh),
            Request::UserUpdate(p) => self.user_update(p, fresh),
            Request::ContactModify(p) => self.contact_modify(p, fresh),
            Request::ContactGet(p) => self.contact_get(p, fresh),
            Request::ContactQuery(p) => self.contact_query(p, fresh),
            Request::ContactAll(p) => self.contact_all(p, fresh),
            Request::MsgSend(p) => self.msg_send(p, fresh),
            Request::MsgQuery(p) => self.msg_query(p, fresh),
            Request::MsgSub(p) => self.msg_sub(p, fresh),
            Request::MsgNext(p) => self.msg_next(p, fresh),
        }
    }

    /// Answers an envelope: the request in it is carried out, and the
    /// response goes back under the same id. An envelope that holds no
    /// request is answered with an error, and nothing is done.
    pub fn handle(&mut self, env: Envelope, fresh: Fresh) -> (r: Envelope)
        ensures
            handled(old(self).qaul@, env, fresh, r, final(self).qaul@),
    {
        let Envelope { id, data } = env;
        let resp = match data {
            EnvelopeType::Request(req) => self.respond(req, fresh),
            EnvelopeType::Response(_) => Response::error(Error::InvalidPayload),
        };
        Envelope { id, data: EnvelopeType::Response(resp) }
    }

    /// Answers what came of reading the body of a request: an envelope,
    /// or the reason why the body is none. An envelope is answered with
    /// the status for success, whatever the core says of the request in
    /// it; a body that is no envelope is answered with the status for
    /// failure and the reason, and nothing is done.
    pub fn serve(&mut self, parsed: Result<Envelope, String>, fresh: Fresh) -> (r: (
        u16,
        Result<Envelope, String>,
    ))
        ensures
            match parsed {
                Ok(env) => {
                    &&& r.0 == STATUS_ANSWERED
                    &&& r.1 matches Ok(out)
                    &&& handled(old(self).qaul@, env, fresh, out, final(self).qaul@)
                },
                Err(reason) => {
                    &&& r.0 == STATUS_NO_ENVELOPE
                    &&& r.1 == Err::<Envelope, String>(reason)
                    &&& final(self).qaul@ == old(self).qaul@
                },
            },
    {
        match parsed {
            Ok(env) => (STATUS_ANSWERED, Ok(self.handle(env, fresh))),
            Err(reason) => (STATUS_NO_ENVELOPE, Err(reason)),
        }
    }
}

/// The HTTP status of the answer to an envelope.
pub const STATUS_ANSWERED: u16 = 200;

/// The HTTP status of the answer to a body that is no envelope.
pub const STATUS_NO_ENVELOPE: u16 = 500;

/// `r` answers the envelope `env` on a core that was `before` and is
/// `after`: it goes back under the same id and holds the response to
/// the request; an envelope that holds no request is answered with an
/// error, and nothing is done.
pub open spec fn handled(
    before: QaulView,
    env: Envelope,
    fresh: Fresh,
    r: Envelope,
    after: QaulView,
) -> bool {
    &&& r.id == env.id
    &&& match env.data {
        EnvelopeType::Request(req) => {
            &&& r.data matches EnvelopeType::Response(resp)
            &&& responds(before, req, fresh, resp, after)
        },
        EnvelopeType::Response(_) => {
            &&& r.data matches EnvelopeType::Response(resp)
            &&& tells(resp, Error::InvalidPayload)
            &&& after == before
        },
    }
}

} // verus!
