//! Envelopes: a request or a response together with the id by which
//! the two are told to belong together.

use crate::contacts::ContactEntry;
use crate::error::{message_of, Error};
use crate::text::same_text;
use crate::identity::Identity;
use crate::messages::Message;
use crate::rpc::contacts::{All as ContactAll, Get as ContactGet, Modify as ContactModify, Query as ContactQuery};
use crate::rpc::messages::{Next as MsgNext, Query as MsgQuery, Send as MsgSend, Subscribe as MsgSub};
use crate::rpc::users::{
    ChangePw, Create, Delete, Get, List, ListLocal, ListRemote, Login, Logout, Update,
};
use crate::store::library::Subscription;
use crate::users::{UserAuth, UserProfile};
use vstd::prelude::*;

verus! {

/// The id of a subscription, as it travels.
pub type SubId = Subscription;

/// Represents a request or a response in transit
///
/// In some rpc systems requests are processed in an order that cannot
/// be known, which makes it hard to tell which response belongs to
/// which request. This is what the id is for.
#[derive(Debug)]
pub struct Envelope {
    pub id: String,
    pub data: EnvelopeType,
}

/// A generic wrapper for requests and responses
#[derive(Debug)]
pub enum EnvelopeType {
    /// A request
    Request(Request),
    /// A response
    Response(Response),
}

/// A wrapper enum to disambiguate request types in the envelope.
#[derive(Debug)]
pub enum Request {
    /// Modify a user's contact
    ContactModify(ContactModify),
    /// Get a user contact
    ContactGet(ContactGet),
    /// Query a user's contacts
    ContactQuery(ContactQuery),
    /// Get all user contacts
    ContactAll(ContactAll),
    /// Send a raw message
    MsgSend(MsgSend),
    /// Poll the next raw message
    MsgNext(MsgNext),
    /// Create a subscription for raw messages
    MsgSub(MsgSub),
    /// Query existing raw messages
    MsgQuery(MsgQuery),
    /// List all available users
    UserList(List),
    /// List locally available users
    UserListLocal(ListLocal),
    /// List remote available users
    UserListRemote(ListRemote),
    /// Create a new user
    UserCreate(Create),
    /// Delete a local user
    UserDelete(Delete),
    /// Change a user's passphrase
    UserChangePw(ChangePw),
    /// Login as a user to get an auth token
    UserLogin(Login),
    /// End a user session
    UserLogout(Logout),
    /// Get data on a particular user
    UserGet(Get),
    /// Update a user
    UserUpdate(Update),
}

/// Wrap around all possible response values for piped Rpc protocols
#[derive(Debug)]
pub enum Response {
    /// Return an auth object
    Auth(UserAuth),
    /// Return a set of contact entries
    Contact(Vec<ContactEntry>),
    /// Return an error type
    Error(String),
    /// Return a set of message
    Message(Vec<Message>),
    /// Return a message ID
    MsgId(Identity),
    /// Confirmation for a new subscription
    Subscription(SubId),
    /// A generic success message
    Success,
    /// Return a set of user profiles
    User(Vec<UserProfile>),
    /// Return available user IDs
    UserId(Vec<Identity>),
}

/// `r` is the response that tells of the error `e`.
pub open spec fn tells(r: Response, e: Error) -> bool {
    r matches Response::Error(s) && s@ == message_of(e)
}

/// `r` answers a request that gives nothing back: it says that all went
/// well, or which error there was.
pub open spec fn confirms(r: Response, done: Result<(), Error>) -> bool {
    match done {
        Ok(()) => r is Success,
        Err(e) => tells(r, e),
    }
}

impl Response {
    /// The response that tells of an error, in its own words.
    pub fn error(e: Error) -> (r: Self)
        ensures
            tells(r, e),
    {
        Response::Error(e.to_string())
    }

    /// The response to a request that gives nothing back.
    pub fn confirm(done: Result<(), Error>) -> (r: Self)
        ensures
            confirms(r, done),
    {
        match done {
            Ok(()) => Response::Success,
            Err(e) => Response::error(e),
        }
    }
}

impl From<UserAuth> for Response {
    fn from(auth: UserAuth) -> (r: Self)
        ensures
            r matches Response::Auth(a) && a == auth,
    {
        Response::Auth(auth)
    }
}

impl vstd::std_specs::convert::FromSpecImpl<UserAuth> for Response {
    open spec fn obeys_from_spec() -> bool {
        true
    }

    open spec fn from_spec(v: UserAuth) -> Self {
        Response::Auth(v)
    }
}

impl From<ContactEntry> for Response {
    fn from(contact: ContactEntry) -> (r: Self)
        ensures
            r matches Response::Contact(v) && v@ == seq![contact],
    {
        let mut v: Vec<ContactEntry> = Vec::new();
        v.push(contact);
        assert(v@ =~= seq![contact]);
        Response::Contact(v)
    }
}

impl vstd::std_specs::convert::FromSpecImpl<ContactEntry> for Response {
    open spec fn obeys_from_spec() -> bool {
        false
    }

    open spec fn from_spec(v: ContactEntry) -> Self {
        arbitrary()
    }
}

impl From<Vec<ContactEntry>> for Response {
    fn from(contacts: Vec<ContactEntry>) -> (r: Self)
        ensures
            r matches Response::Contact(v) && v == contacts,
    {
        Response::Contact(contacts)
    }
}

impl vstd::std_specs::convert::FromSpecImpl<Vec<ContactEntry>> for Response {
    open spec fn obeys_from_spec() -> bool {
        true
    }

    open spec fn from_spec(v: Vec<ContactEntry>) -> Self {
        Response::Contact(v)
    }
}

impl From<Message> for Response {
    fn from(msg: Message) -> (r: Self)
        ensures
            r matches Response::Message(v) && v@ == seq![msg],
    {
        let mut v: Vec<Message> = Vec::new();
        v.push(msg);
        assert(v@ =~= seq![msg]);
        Response::Message(v)
    }
}

impl vstd::std_specs::convert::FromSpecImpl<Message> for Response {
    open spec fn obeys_from_spec() -> bool {
        false
    }

    open spec fn from_spec(v: Message) -> Self {
        arbitrary()
    }
}

impl From<Vec<Message>> for Response {
    fn from(msgs: Vec<Message>) -> (r: Self)
        ensures
            r matches Response::Message(v) && v == msgs,
    {
        Response::Message(msgs)
    }
}

impl vstd::std_specs::convert::FromSpecImpl<Vec<Message>> for Response {
    open spec fn obeys_from_spec() -> bool {
        true
    }

    open spec fn from_spec(v: Vec<Message>) -> Self {
        Response::Message(v)
    }
}

impl From<()> for Response {
    fn from(done: ()) -> (r: Self)
        ensures
            r is Success,
    {
        Response::Success
    }
}

impl vstd::std_specs::convert::FromSpecImpl<()> for Response {
    open spec fn obeys_from_spec() -> bool {
        true
    }

    open spec fn from_spec(v: ()) -> Self {
        Response::Success
    }
}

impl From<UserProfile> for Response {
    fn from(user: UserProfile) -> (r: Self)
        ensures
            r matches Response::User(v) && v@ == seq![user],
    {
        let mut v: Vec<UserProfile> = Vec::new();
        v.push(user);
        assert(v@ =~= seq![user]);
        Response::User(v)
    }
}

impl vstd::std_specs::convert::FromSpecImpl<UserProfile> for Response {
    open spec fn obeys_from_spec() -> bool {
        false
    }

    open spec fn from_spec(v: UserProfile) -> Self {
        arbitrary()
    }
}

impl From<Vec<UserProfile>> for Response {
    fn from(users: Vec<UserProfile>) -> (r: Self)
        ensures
            r matches Response::User(v) && v == users,
    {
        Response::User(users)
    }
}

impl vstd::std_specs::convert::FromSpecImpl<Vec<UserProfile>> for Response {
    open spec fn obeys_from_spec() -> bool {
        true
    }

    open spec fn from_spec(v: Vec<UserProfile>) -> Self {
        Response::User(v)
    }
}

impl<T: Into<Response>> From<Result<T, Error>> for Response {
    fn from(result: Result<T, Error>) -> (r: Self)
        ensures
            match result {
                Ok(t) => call_ensures(<T as Into<Response>>::into, (t,), r),
                Err(e) => tells(r, e),
            },
    {
        match result {
            Ok(t) => t.into(),
            Err(e) => Response::error(e),
        }
    }
}

impl<T: Into<Response>> vstd::std_specs::convert::FromSpecImpl<Result<T, Error>> for Response {
    open spec fn obeys_from_spec() -> bool {
        false
    }

    open spec fn from_spec(v: Result<T, Error>) -> Self {
        arbitrary()
    }
}

/// The kinds of requests, without what they carry.
#[derive(Clone, Copy, Debug, PartialEq, Eq, Structural)]
pub enum RequestKind {
    ContactModify,
    ContactGet,
    ContactQuery,
    ContactAll,
    MsgSend,
    MsgNext,
    MsgSub,
    MsgQuery,
    UserList,
    UserListLocal,
    UserListRemote,
    UserCreate,
    UserDelete,
    UserChangePw,
    UserLogin,
    UserLogout,
    UserGet,
    UserUpdate,
}

/// The two names under which a kind of request travels: what it is
/// about, and what is to be done.
pub open spec fn kind_names(k: RequestKind) -> (Seq<char>, Seq<char>) {
    match k {
        RequestKind::ContactModify => ("contact"@, "modify"@),
        RequestKind::ContactGet => ("contact"@, "get"@),
        RequestKind::ContactQuery => ("contact"@, "query"@),
        RequestKind::ContactAll => ("contact"@, "all"@),
        RequestKind::MsgSend => ("message"@, "send"@),
        RequestKind::MsgNext => ("message"@, "next"@),
        RequestKind::MsgSub => ("message"@, "subscribe"@),
        RequestKind::MsgQuery => ("message"@, "query"@),
        RequestKind::UserList => ("user"@, "list"@),
        RequestKind::UserListLocal => ("user"@, "list_local"@),
        RequestKind::UserListRemote => ("user"@, "list_remote"@),
        RequestKind::UserCreate => ("user"@, "create"@),
        RequestKind::UserDelete => ("user"@, "delete"@),
        RequestKind::UserChangePw => ("user"@, "change_pw"@),
        RequestKind::UserLogin => ("user"@, "login"@),
        RequestKind::UserLogout => ("user"@, "logout"@),
        RequestKind::UserGet => ("user"@, "get"@),
        RequestKind::UserUpdate => ("user"@, "update"@),
    }
}

impl RequestKind {
    /// The two names under which this kind of request travels.
    pub fn names(self) -> (r: (&'static str, &'static str))
        ensures
            (r.0@, r.1@) == kind_names(self),
    {
        match self {
            RequestKind::ContactModify => ("contact", "modify"),
            RequestKind::ContactGet => ("contact", "get"),
            RequestKind::ContactQuery => ("contact", "query"),
            RequestKind::ContactAll => ("contact", "all"),
            RequestKind::MsgSend => ("message", "send"),
            RequestKind::MsgNext => ("message", "next"),
            RequestKind::MsgSub => ("message", "subscribe"),
            RequestKind::MsgQuery => ("message", "query"),
            RequestKind::UserList => ("user", "list"),
            RequestKind::UserListLocal => ("user", "list_local"),
            RequestKind::UserListRemote => ("user", "list_remote"),
            RequestKind::UserCreate => ("user", "create"),
            RequestKind::UserDelete => ("user", "delete"),
            RequestKind::UserChangePw => ("user", "change_pw"),
            RequestKind::UserLogin => ("user", "login"),
            RequestKind::UserLogout => ("user", "logout"),
            RequestKind::UserGet => ("user", "get"),
            RequestKind::UserUpdate => ("user", "update"),
        }
    }

    /// Every kind of request, each once.
    pub fn all() -> (all: Vec<RequestKind>)
        ensures
            forall|k: RequestKind| all@.contains(k),
            all@.no_duplicates(),
    {
        let mut all: Vec<RequestKind> = Vec::new();
        all.push(RequestKind::ContactModify);
        all.push(RequestKind::ContactGet);
        all.push(RequestKind::ContactQuery);
        all.push(RequestKind::ContactAll);
        all.push(RequestKind::MsgSend);
        all.push(RequestKind::MsgNext);
        all.push(RequestKind::MsgSub);
        all.push(RequestKind::MsgQuery);
        all.push(RequestKind::UserList);
        all.push(RequestKind::UserListLocal);
        all.push(RequestKind::UserListRemote);
        all.push(RequestKind::UserCreate);
        all.push(RequestKind::UserDelete);
        all.push(RequestKind::UserChangePw);
        all.push(RequestKind::UserLogin);
        all.push(RequestKind::UserLogout);
        all.push(RequestKind::UserGet);
        all.push(RequestKind::UserUpdate);
        proof {
            assert forall|k: RequestKind| all@.contains(k) by {
                match k {
                    RequestKind::ContactModify => {
                        assert(all@[0] == k);
                    },
                    RequestKind::ContactGet => {
                        assert(all@[1] == k);
                    },
                    RequestKind::ContactQuery => {
                        assert(all@[2] == k);
                    },
                    RequestKind::ContactAll => {
                        assert(all@[3] == k);
                    },
                    RequestKind::MsgSend => {
                        assert(all@[4] == k);
                    },
                    RequestKind::MsgNext => {
                        assert(all@[5] == k);
                    },
                    RequestKind::MsgSub => {
                        assert(all@[6] == k);
                    },
                    RequestKind::MsgQuery => {
                        assert(all@[7] == k);
                    },
                    RequestKind::UserList => {
                        assert(all@[8] == k);
                    },
                    RequestKind::UserListLocal => {
                        assert(all@[9] == k);
                    },
                    RequestKind::UserListRemote => {
                        assert(all@[10] == k);
                    },
                    RequestKind::UserCreate => {
                        assert(all@[11] == k);
                    },
                    RequestKind::UserDelete => {
                        assert(all@[12] == k);
                    },
                    RequestKind::UserChangePw => {
                        assert(all@[13] == k);
                    },
                    RequestKind::UserLogin => {
                        assert(all@[14] == k);
                    },
                    RequestKind::UserLogout => {
                        assert(all@[15] == k);
                    },
                    RequestKind::UserGet => {
                        assert(all@[16] == k);
                    },
                    RequestKind::UserUpdate => {
                        assert(all@[17] == k);
                    },
                }
            }
        }
        all
    }

    /// The kind of request that travels under the two names, if there
    /// is one.
    pub fn parse(kind: &str, method: &str) -> (r: Option<RequestKind>)
        ensures
            match r {
                Some(k) => kind_names(k) == (kind@, method@),
                None => forall|k: RequestKind| kind_names(k) != (kind@, method@),
            },
    {
        let all = RequestKind::all();
        let mut i: usize = 0;
        while i < all.len()
            invariant
                i <= all.len(),
                forall|k: RequestKind| all@.contains(k),
                forall|j: int| 0 <= j < i ==> kind_names(#[trigger] all@[j]) != (kind@, method@),
            decreases all.len() - i,
        {
            let names = all[i].names();
            if same_text(names.0, kind) && same_text(names.1, method) {
                return Some(all[i]);
            }
            i += 1;
        }
        proof {
            assert forall|k: RequestKind| kind_names(k) != (kind@, method@) by {
                assert(all@.contains(k));
                let j = choose|j: int| 0 <= j < all@.len() && all@[j] == k;
                assert(kind_names(all@[j]) != (kind@, method@));
            }
        }
        None
    }
}

/// The name under which the payload of a response travels.
pub open spec fn response_tag(r: Response) -> Seq<char> {
    match r {
        Response::Auth(_) => "auth"@,
        Response::Contact(_) => "contact"@,
        Response::Error(_) => "error"@,
        Response::Message(_) => "message"@,
        Response::MsgId(_) => "msg_id"@,
        Response::Subscription(_) => "subscription"@,
        Response::Success => "success"@,
        Response::User(_) => "user"@,
        Response::UserId(_) => "user_id"@,
    }
}

impl Response {
    /// The name under which the payload of this response travels.
    pub fn tag(&self) -> (r: &'static str)
        ensures
            r@ == response_tag(*self),
    {
        match self {
            Response::Auth(_) => "auth",
            Response::Contact(_) => "contact",
            Response::Error(_) => "error",
            Response::Message(_) => "message",
            Response::MsgId(_) => "msg_id",
            Response::Subscription(_) => "subscription",
            Response::Success => "success",
            Response::User(_) => "user",
            Response::UserId(_) => "user_id",
        }
    }
}

impl Request {
    /// The kind of this request.
    pub fn kind(&self) -> (r: RequestKind)
        ensures
            r == request_kind(*self),
    {
        match self {
            Request::ContactModify(_) => RequestKind::ContactModify,
            Request::ContactGet(_) => RequestKind::ContactGet,
            Request::ContactQuery(_) => RequestKind::ContactQuery,
            Request::ContactAll(_) => RequestKind::ContactAll,
            Request::MsgSend(_) => RequestKind::MsgSend,
            Request::MsgNext(_) => RequestKind::MsgNext,
            Request::MsgSub(_) => RequestKind::MsgSub,
            Request::MsgQuery(_) => RequestKind::MsgQuery,
            Request::UserList(_) => RequestKind::UserList,
            Request::UserListLocal(_) => RequestKind::UserListLocal,
            Request::UserListRemote(_) => RequestKind::UserListRemote,
            Request::UserCreate(_) => RequestKind::UserCreate,
            Request::UserDelete(_) => RequestKind::UserDelete,
            Request::UserChangePw(_) => RequestKind::UserChangePw,
            Request::UserLogin(_) => RequestKind::UserLogin,
            Request::UserLogout(_) => RequestKind::UserLogout,
            Request::UserGet(_) => RequestKind::UserGet,
            Request::UserUpdate(_) => RequestKind::UserUpdate,
        }
    }
}

/// The kind of a request.
pub open spec fn request_kind(req: Request) -> RequestKind {
    match req {
        Request::ContactModify(_) => RequestKind::ContactModify,
        Request::ContactGet(_) => RequestKind::ContactGet,
        Request::ContactQuery(_) => RequestKind::ContactQuery,
        Request::ContactAll(_) => RequestKind::ContactAll,
        Request::MsgSend(_) => RequestKind::MsgSend,
        Request::MsgNext(_) => RequestKind::MsgNext,
        Request::MsgSub(_) => RequestKind::MsgSub,
        Request::MsgQuery(_) => RequestKind::MsgQuery,
        Request::UserList(_) => RequestKind::UserList,
        Request::UserListLocal(_) => RequestKind::UserListLocal,
        Request::UserListRemote(_) => RequestKind::UserListRemote,
        Request::UserCreate(_) => RequestKind::UserCreate,
        Request::UserDelete(_) => RequestKind::UserDelete,
        Request::UserChangePw(_) => RequestKind::UserChangePw,
        Request::UserLogin(_) => RequestKind::UserLogin,
        Request::UserLogout(_) => RequestKind::UserLogout,
        Request::UserGet(_) => RequestKind::UserGet,
        Request::UserUpdate(_) => RequestKind::UserUpdate,
    }
}

/// No two kinds of request travel under the same names: what was sent
/// as one kind is read as that kind.
pub proof fn lemma_kind_names_injective(a: RequestKind, b: RequestKind)
    requires
        kind_names(a) == kind_names(b),
    ensures
        a == b,
{
    reveal_strlit("contact");
    reveal_strlit("message");
    reveal_strlit("user");
    reveal_strlit("modify");
    reveal_strlit("get");
    reveal_strlit("query");
    reveal_strlit("all");
    reveal_strlit("send");
    reveal_strlit("next");
    reveal_strlit("subscribe");
    reveal_strlit("list");
    reveal_strlit("list_local");
    reveal_strlit("list_remote");
    reveal_strlit("create");
    reveal_strlit("delete");
    reveal_strlit("change_pw");
    reveal_strlit("login");
    reveal_strlit("logout");
    reveal_strlit("update");
    let (ka, ma) = kind_names(a);
    let (kb, mb) = kind_names(b);
    assert(ka.len() == kb.len() && ma.len() == mb.len());
    assert(ka[0] == kb[0]);
    assert(ma[0] == mb[0]);
    if ma.len() > 2 {
        assert(ma[2] == mb[2]);
    }
}

} // verus!
