//! Messages and the store that keeps them.
//!
//! A message is kept as a record under a path made of its id. Besides
//! the tags that its service gave it, the record carries tags of the
//! library's own: who sent it, which service it belongs to, that it is a
//! message, whether it was flooded, and whether it is still unread.

use crate::error::Error;
use crate::helpers::{FromRecord, QueryResult, Tagged};
use crate::hexcode::{hex_upper, lemma_hex_upper_is_hex};
use crate::identity::{Identity, ID_LEN};
use crate::store::library::{
    answers, batch_record, batched, handed, merged, sub_position, subscribed, valid, Key, Library,
    LibraryView, Subscription,
};
use crate::store::query::{Query, QueryView, SetQueryView};
use crate::store::record::{
    apply_all, diff_views, rooted, Content, Diff, DiffView, KvView, Path, Record, RecordView,
    Session, Value, ValueView,
};
use crate::tags::{Tag, TagSet, TagView};
use vstd::prelude::*;
use vstd::string::StringExecFns;
use vstd::utf8::{encode_utf8, is_ascii_chars, is_ascii_chars_encode_utf8};

verus! {

pub const TAG_FLOOD: &'static str = "libqaul._int.flood";

pub const TAG_UNREAD: &'static str = "libqaul._int.unread";

pub const TAG_SENDER: &'static str = "libqaul._int.sender";

pub const TAG_SERVICE: &'static str = "libqaul._int.service";

/// A message: what one user's service sends to others.
#[derive(Debug)]
pub struct Message {
    /// The id of the message
    pub id: Identity,
    /// Who sent it
    pub sender: Identity,
    /// The name of the service that it belongs to
    pub associator: String,
    /// The tags that the service gave it
    pub tags: TagSet,
    /// What it carries
    pub payload: Vec<u8>,
}

/// What a message is to a contract.
#[verifier::ext_equal]
pub struct MessageView {
    pub id: Seq<u8>,
    pub sender: Seq<u8>,
    pub associator: Seq<char>,
    pub tags: Set<TagView>,
    pub payload: Seq<u8>,
}

impl View for Message {
    type V = MessageView;

    open spec fn view(&self) -> MessageView {
        MessageView {
            id: self.id@,
            sender: self.sender@,
            associator: self.associator@,
            tags: self.tags@,
            payload: self.payload@,
        }
    }
}

impl Clone for Message {
    fn clone(&self) -> (r: Self)
        ensures
            r@ == self@,
    {
        let payload = self.payload.clone();
        assert(payload@ =~= self.payload@);
        Message {
            id: self.id,
            sender: self.sender,
            associator: self.associator.clone(),
            tags: self.tags.clone(),
            payload,
        }
    }
}

/// How a message is sent: to everyone, or to one user.
#[derive(Clone, Copy, Debug)]
pub enum Mode {
    Flood,
    Std(Identity),
}

/// On whose behalf the store is asked: a service by its name, or the
/// library itself, which sees the messages of every service.
#[derive(Debug)]
pub enum Service {
    Name(String),
    God,
}

/// What is asked of the message store.
#[derive(Debug)]
pub struct MsgQuery {
    pub id: Option<Identity>,
    pub sender: Option<Identity>,
    pub tags: TagSet,
}

impl MsgQuery {
    /// A query for every message.
    pub fn new() -> (r: Self)
        ensures
            r.id is None,
            r.sender is None,
            r.tags@ == Set::<TagView>::empty(),
    {
        MsgQuery { id: None, sender: None, tags: TagSet::empty() }
    }

    /// Only the message with this id.
    pub fn id(self, id: Identity) -> (r: Self)
        ensures
            r.id == Some(id),
            r.sender == self.sender,
            r.tags@ == self.tags@,
    {
        MsgQuery { id: Some(id), sender: self.sender, tags: self.tags }
    }

    /// Only messages that this user has sent.
    pub fn sender(self, sender: Identity) -> (r: Self)
        ensures
            r.id == self.id,
            r.sender == Some(sender),
            r.tags@ == self.tags@,
    {
        MsgQuery { id: self.id, sender: Some(sender), tags: self.tags }
    }

    /// Only messages that carry this tag too.
    pub fn tag(self, t: Tag) -> (r: Self)
        ensures
            r.id == self.id,
            r.sender == self.sender,
            r.tags@ == self.tags@.insert(t@),
    {
        let mut tags = self.tags;
        tags.insert(t);
        MsgQuery { id: self.id, sender: self.sender, tags }
    }
}

impl Default for MsgQuery {
    fn default() -> (r: Self)
        ensures
            r.id is None,
            r.sender is None,
            r.tags@ == Set::<TagView>::empty(),
    {
        MsgQuery::new()
    }
}

/// The path under which the message with the given id is kept.
pub open spec fn msg_path_of(id: Seq<u8>) -> Seq<char> {
    "/msg:"@ + hex_upper(id)
}

/// The path of a message begins with a slash.
pub proof fn lemma_msg_path_rooted(id: Seq<u8>)
    ensures
        rooted(msg_path_of(id)),
{
    reveal_strlit("/msg:");
    lemma_hex_upper_is_hex(id);
    let p = msg_path_of(id);
    assert(is_ascii_chars(p)) by {
        assert forall|i: int| 0 <= i < p.len() implies '\0' <= #[trigger] p[i] <= '\u{7f}' by {
            if i >= 5 {
                assert(p[i] == hex_upper(id)[i - 5]);
                assert(is_ascii_chars(hex_upper(id)));
            }
        }
    }
    is_ascii_chars_encode_utf8(p);
    assert(p[0] == '/');
    assert(encode_utf8(p)[0] == p[0] as u8);
}

/// The tag that names the sender of a message.
pub open spec fn sender_tag_of(sender: Seq<u8>) -> TagView {
    TagView { key: TAG_SENDER@, val: sender }
}

/// The tag that names the service of a message.
pub open spec fn service_tag_of(service: Seq<char>) -> TagView {
    TagView { key: TAG_SERVICE@, val: encode_utf8(service) }
}

/// The tag that every message carries.
pub open spec fn message_tag() -> TagView {
    TagView { key: "message"@, val: Seq::empty() }
}

/// The tag of a message that was sent to everyone.
pub open spec fn flood_tag() -> TagView {
    TagView { key: TAG_FLOOD@, val: Seq::empty() }
}

/// The tag of a message that nobody has read yet.
pub open spec fn unread_tag() -> TagView {
    TagView { key: TAG_UNREAD@, val: Seq::empty() }
}

/// The tags under which a message is kept, `sender` being who sent it.
pub open spec fn kept_tags(msg: MessageView, sender: Seq<u8>) -> Set<TagView> {
    msg.tags.insert(sender_tag_of(sender)).insert(service_tag_of(msg.associator)).insert(
        message_tag(),
    )
}

/// The tags under which a message of this node is kept.
pub open spec fn local_tags(msg: MessageView, user: Seq<u8>, mode: Mode) -> Set<TagView> {
    match mode {
        Mode::Flood => kept_tags(msg, user).insert(flood_tag()),
        Mode::Std(_) => kept_tags(msg, user),
    }
}

/// The namespace in which a message of this node is kept.
pub open spec fn local_session(user: Identity, mode: Mode) -> Session {
    match mode {
        Mode::Flood => Session::Global,
        Mode::Std(_) => Session::Id(user),
    }
}

/// The tags under which a message from the network is kept.
pub open spec fn remote_tags(msg: MessageView, recipient: Option<Identity>) -> Set<TagView> {
    match recipient {
        Some(_) => kept_tags(msg, msg.sender).insert(unread_tag()),
        None => kept_tags(msg, msg.sender).insert(unread_tag()).insert(flood_tag()),
    }
}

/// The namespace in which a message from the network is kept.
pub open spec fn remote_session(recipient: Option<Identity>) -> Session {
    match recipient {
        Some(id) => Session::Id(id),
        None => Session::Global,
    }
}

/// However a message is kept, it carries the tag of messages, the tag
/// of its sender and the tag of its service. One that came from the
/// network is unread; one that was sent from here is unread only if its
/// service has tagged it so.
pub proof fn lemma_kept_tags(msg: MessageView, user: Seq<u8>, mode: Mode, recipient: Option<Identity>)
    ensures
        local_tags(msg, user, mode).contains(message_tag()),
        local_tags(msg, user, mode).contains(sender_tag_of(user)),
        local_tags(msg, user, mode).contains(service_tag_of(msg.associator)),
        local_tags(msg, user, mode).contains(unread_tag()) <==> msg.tags.contains(unread_tag()),
        local_tags(msg, user, mode).contains(flood_tag()) <==> (mode is Flood
            || msg.tags.contains(flood_tag())),
        remote_tags(msg, recipient).contains(message_tag()),
        remote_tags(msg, recipient).contains(sender_tag_of(msg.sender)),
        remote_tags(msg, recipient).contains(service_tag_of(msg.associator)),
        remote_tags(msg, recipient).contains(unread_tag()),
        remote_tags(msg, recipient).contains(flood_tag()) <==> (recipient is None
            || msg.tags.contains(flood_tag())),
{
    reveal_strlit("libqaul._int.flood");
    reveal_strlit("libqaul._int.unread");
    reveal_strlit("libqaul._int.sender");
    reveal_strlit("libqaul._int.service");
    reveal_strlit("message");
    assert(TAG_UNREAD@.len() == 19 && TAG_FLOOD@.len() == 18 && TAG_SENDER@.len() == 19
        && TAG_SERVICE@.len() == 20 && "message"@.len() == 7);
    assert(TAG_UNREAD@[13] == 'u' && TAG_SENDER@[13] == 's');
}

/// Whether a record stands under `path` where `user` can read it: in
/// the namespace for everyone, or in the user's own if it is open.
pub open spec fn probed(v: LibraryView, user: Identity, path: Seq<char>) -> bool {
    v.records.contains_key((Session::Global, path)) || (v.users.contains(user)
        && v.records.contains_key((Session::Id(user), path)))
}

/// Different messages are kept under different paths.
pub proof fn lemma_msg_path_injective(a: Seq<u8>, b: Seq<u8>)
    requires
        msg_path_of(a) == msg_path_of(b),
    ensures
        a == b,
{
    let pa = msg_path_of(a);
    let pb = msg_path_of(b);
    let n = "/msg:"@.len() as int;
    assert(hex_upper(a) =~= pa.subrange(n, pa.len() as int));
    assert(hex_upper(b) =~= pb.subrange(n, pb.len() as int));
    crate::hexcode::lemma_hex_upper_injective(a, b);
}

/// A message that was sent from here, to one user or to everyone, is
/// found by its id afterwards, and no other message is found or lost on
/// its account.
pub proof fn lemma_probe_after_insert(
    v: LibraryView,
    user: Identity,
    msg: MessageView,
    mode: Mode,
    other: Seq<u8>,
)
    requires
        batched(
            v,
            local_session(user, mode),
            msg_path_of(msg.id),
            local_tags(msg, user@, mode),
            message_diffs(msg),
        ) is Ok,
        other != msg.id,
    ensures
        ({
            let after = batched(
                v,
                local_session(user, mode),
                msg_path_of(msg.id),
                local_tags(msg, user@, mode),
                message_diffs(msg),
            )->Ok_0;
            &&& probed(after, user, msg_path_of(msg.id))
            &&& probed(after, user, msg_path_of(other)) == probed(v, user, msg_path_of(other))
        }),
{
    if msg_path_of(other) == msg_path_of(msg.id) {
        lemma_msg_path_injective(other, msg.id);
    }
}

/// One who waits for the messages of a service with certain tags is
/// handed a message from the network that is for this user, belongs to
/// the service and carries the tags, when it next asks.
pub proof fn lemma_message_reaches_subscription(
    v: LibraryView,
    user: Identity,
    service: Service,
    tags: Set<TagView>,
    msg: MessageView,
)
    requires
        valid(v),
        v.users.contains(user),
        v.next_sub < usize::MAX,
        msg.id.len() == ID_LEN,
        msg.sender.len() == ID_LEN,
        !v.records.contains_key((Session::Id(user), msg_path_of(msg.id))),
        service matches Service::Name(s) ==> s@ == msg.associator,
        tags.subset_of(msg.tags),
    ensures
        ({
            let q = QueryView::Tag(SetQueryView::Subset(query_tags(service, None, tags)));
            let kept = remote_tags(msg, Some(user));
            &&& subscribed(v, Session::Id(user), q) matches Ok(waiting)
            &&& batched(
                waiting,
                Session::Id(user),
                msg_path_of(msg.id),
                kept,
                message_diffs(msg),
            ) matches Ok(after)
            &&& next_message_of(after, user, v.next_sub as usize).0 == Ok::<
                Option<MessageView>,
                Error,
            >(Some(MessageView { tags: kept, ..msg }))
        }),
{
    let session = Session::Id(user);
    let q = QueryView::Tag(SetQueryView::Subset(query_tags(service, None, tags)));
    let kept = remote_tags(msg, Some(user));
    let path = msg_path_of(msg.id);
    let waiting = subscribed(v, session, q)->Ok_0;
    lemma_msg_path_rooted(msg.id);
    lemma_message_diffs_apply(msg, kept);
    assert(Set::<TagView>::empty().union(kept) =~= kept);
    let rec = batch_record(waiting, session, path, kept, message_diffs(msg))->Ok_0;
    assert(rec.tags == kept);
    assert(query_tags(service, None, tags).subset_of(kept));
    crate::store::library::lemma_subscription_liveness(
        v,
        session,
        q,
        path,
        kept,
        message_diffs(msg),
    );
    let after = batched(waiting, session, path, kept, message_diffs(msg))->Ok_0;
    assert(after.records[(session, path)] == rec);
    lemma_message_round_trip(msg, rec);
}

/// The diffs that write a message into a new record.
pub open spec fn message_diffs(msg: MessageView) -> Seq<DiffView> {
    seq![
        DiffView::Insert("id"@, ValueView::Bin(msg.id)),
        DiffView::Insert("sender"@, ValueView::Bin(msg.sender)),
        DiffView::Insert("associate"@, ValueView::Str(msg.associator)),
        DiffView::Insert("payload"@, ValueView::Bin(msg.payload)),
    ]
}

/// The message that a record stands for: its four fields have to be
/// there, each of its kind, and the two ids of the right width.
pub open spec fn message_of(rec: RecordView) -> Option<MessageView> {
    if rec.kv.contains_key("id"@) && rec.kv.contains_key("sender"@) && rec.kv.contains_key(
        "associate"@,
    ) && rec.kv.contains_key("payload"@) {
        match (rec.kv["id"@], rec.kv["sender"@], rec.kv["associate"@], rec.kv["payload"@]) {
            (
                ValueView::Bin(id),
                ValueView::Bin(sender),
                ValueView::Str(associator),
                ValueView::Bin(payload),
            ) => if id.len() == ID_LEN && sender.len() == ID_LEN {
                Some(MessageView { id, sender, associator, tags: rec.tags, payload })
            } else {
                None
            },
            _ => None,
        }
    } else {
        None
    }
}

/// The tags that a query to the message store asks for.
pub open spec fn query_tags(service: Service, sender: Option<Identity>, tags: Set<TagView>) -> Set<
    TagView,
> {
    let base = match service {
        Service::Name(s) => Set::<TagView>::empty().insert(service_tag_of(s@)),
        Service::God => Set::<TagView>::empty(),
    };
    let with_sender = match sender {
        Some(id) => base.insert(message_tag()).insert(sender_tag_of(id@)),
        None => base.insert(message_tag()),
    };
    with_sender.union(tags)
}

/// Writing a message into a new record and reading the record gives the
/// message back, with the tags of the record.
pub proof fn lemma_message_round_trip(msg: MessageView, rec: RecordView)
    requires
        msg.id.len() == ID_LEN,
        msg.sender.len() == ID_LEN,
        apply_all(Content { kv: Map::empty(), tags: rec.tags }, message_diffs(msg)) == Ok::<
            Content,
            Error,
        >(Content { kv: rec.kv, tags: rec.tags }),
    ensures
        message_of(rec) == Some(MessageView { tags: rec.tags, ..msg }),
{
    lemma_message_diffs_apply(msg, rec.tags);
    reveal_strlit("id");
    reveal_strlit("sender");
    reveal_strlit("associate");
    reveal_strlit("payload");
    assert("id"@.len() == 2 && "sender"@.len() == 6 && "associate"@.len() == 9 && "payload"@.len()
        == 7);
    assert("sender"@[0] == 's' && "payload"@[0] == 'p');
    assert(rec.kv.contains_key("id"@) && rec.kv["id"@] == ValueView::Bin(msg.id));
    assert(rec.kv.contains_key("sender"@) && rec.kv["sender"@] == ValueView::Bin(msg.sender));
    assert(rec.kv.contains_key("associate"@) && rec.kv["associate"@] == ValueView::Str(
        msg.associator,
    ));
    assert(rec.kv.contains_key("payload"@) && rec.kv["payload"@] == ValueView::Bin(msg.payload));
    assert(message_of(rec)->0 =~= (MessageView { tags: rec.tags, ..msg }));
}

/// The diffs of a message can always be applied to a new record, and
/// leave the four fields of the message in it.
pub proof fn lemma_message_diffs_apply(msg: MessageView, tags: Set<TagView>)
    ensures
        apply_all(Content { kv: Map::empty(), tags }, message_diffs(msg)) == Ok::<Content, Error>(
            Content {
                kv: Map::<Seq<char>, ValueView>::empty().insert("id"@, ValueView::Bin(msg.id)).insert(
                    "sender"@,
                    ValueView::Bin(msg.sender),
                ).insert("associate"@, ValueView::Str(msg.associator)).insert(
                    "payload"@,
                    ValueView::Bin(msg.payload),
                ),
                tags,
            },
        ),
{
    reveal_strlit("id");
    reveal_strlit("sender");
    reveal_strlit("associate");
    reveal_strlit("payload");
    let d = message_diffs(msg);
    let c0 = Content { kv: Map::<Seq<char>, ValueView>::empty(), tags };
    let d3 = d.drop_last();
    let d2 = d3.drop_last();
    let d1 = d2.drop_last();
    let d0 = d1.drop_last();
    assert(d0.len() == 0);
    assert("id"@.len() == 2 && "sender"@.len() == 6 && "associate"@.len() == 9 && "payload"@.len()
        == 7);
    assert("sender"@[0] == 's' && "payload"@[0] == 'p');
    assert(apply_all(c0, d0) == Ok::<Content, Error>(c0));
    assert(d1.last() == d[0]);
    assert(apply_all(c0, d1) is Ok);
    assert(d2.last() == d[1]);
    assert(apply_all(c0, d2) is Ok);
    assert(d3.last() == d[2]);
    assert(apply_all(c0, d3) is Ok);
    assert(d.last() == d[3]);
}

impl Tagged for Message {
    fn tag() -> (r: Tag)
        ensures
            r@ == message_tag(),
    {
        Tag::empty("message")
    }
}

impl FromRecord for Message {
    open spec fn of_record(rec: RecordView) -> Option<MessageView> {
        message_of(rec)
    }

    fn from_rec(rec: &Record) -> (r: Option<Self>) {
        let kv = rec.kv();
        let id = match kv.get("id") {
            Some(Value::Bin(b)) => match Identity::from_bytes(b.as_slice()) {
                Some(id) => id,
                None => {
                    return None;
                },
            },
            _ => {
                return None;
            },
        };
        let sender = match kv.get("sender") {
            Some(Value::Bin(b)) => match Identity::from_bytes(b.as_slice()) {
                Some(id) => id,
                None => {
                    return None;
                },
            },
            _ => {
                return None;
            },
        };
        let associator = match kv.get("associate") {
            Some(Value::Str(s)) => s.clone(),
            _ => {
                return None;
            },
        };
        let payload = match kv.get("payload") {
            Some(Value::Bin(b)) => {
                let c = b.clone();
                assert(c@ =~= b@);
                c
            },
            _ => {
                return None;
            },
        };
        Some(Message { id, sender, associator, tags: rec.tags().clone(), payload })
    }
}

impl Message {
    /// Generate a set of diffs to insert into the store
    pub fn diff(&self) -> (r: Vec<Diff>)
        ensures
            diff_views(r@) == message_diffs(self@),
    {
        let payload = self.payload.clone();
        assert(payload@ =~= self.payload@);
        let mut r: Vec<Diff> = Vec::new();
        r.push(Diff::insert("id", Value::Bin(self.id.to_vec())));
        r.push(Diff::insert("sender", Value::Bin(self.sender.to_vec())));
        r.push(Diff::insert("associate", Value::Str(self.associator.clone())));
        r.push(Diff::insert("payload", Value::Bin(payload)));
        assert(diff_views(r@) =~= message_diffs(self@));
        r
    }
}

/// The path under which the message with the given id is kept.
pub fn msg_path(msg_id: Identity) -> (r: Path)
    ensures
        r@ == msg_path_of(msg_id@),
        rooted(r@),
{
    let text = "/msg:".to_owned().concat(msg_id.to_string().as_str());
    proof {
        lemma_msg_path_rooted(msg_id@);
    }
    Path::new(text)
}

/// The tag that names the sender of a message.
pub fn sender_tag(sender: Identity) -> (r: Tag)
    ensures
        r@ == sender_tag_of(sender@),
{
    Tag::new(TAG_SENDER, sender.to_vec())
}

/// The tag that names the service of a message.
pub fn service_tag(s: &str) -> (r: Tag)
    ensures
        r@ == service_tag_of(s@),
{
    Tag::new(TAG_SERVICE, vstd::slice::slice_to_vec(s.as_bytes()))
}

/// The message store
#[derive(Debug)]
pub struct MsgStore {
    inner: Library,
}

impl View for MsgStore {
    type V = LibraryView;

    closed spec fn view(&self) -> LibraryView {
        self.inner@
    }
}

impl MsgStore {
    /// The message store on top of a record store.
    pub fn new(inner: Library) -> (r: Self)
        ensures
            r@ == inner@,
    {
        Self { inner }
    }

    /// The record store underneath.
    pub fn library(&self) -> (r: &Library)
        ensures
            r@ == self@,
    {
        &self.inner
    }

    /// Opens the namespace of `user`.
    pub fn add_user(&mut self, user: Identity)
        ensures
            final(self)@ == (LibraryView { users: old(self)@.users.insert(user), ..old(self)@ }),
    {
        self.inner.add_user(user);
    }

    fn kept(msg: &Message, sender: Identity) -> (r: TagSet)
        ensures
            r@ == kept_tags(msg@, sender@),
    {
        let mut tags = msg.tags.clone();
        tags.insert(sender_tag(sender));
        tags.insert(service_tag(msg.associator.as_str()));
        tags.insert(Message::tag());
        tags
    }

    /// Insert a message that was sent locally
    ///
    /// This message will not be marked with "unread", and inserted into
    /// either the user or global store, depending on wether it was a
    /// Flooded message.
    pub fn insert_local(&mut self, user: Identity, msg: &Message, mode: Mode) -> (r: Result<
        (),
        Error,
    >)
        ensures
            ({
                let after = batched(
                    old(self)@,
                    local_session(user, mode),
                    msg_path_of(msg.id@),
                    local_tags(msg@, user@, mode),
                    message_diffs(msg@),
                );
                match r {
                    Ok(()) => after == Ok::<LibraryView, Error>(final(self)@),
                    Err(e) => after == Err::<LibraryView, Error>(e) && final(self)@ == old(self)@,
                }
            }),
    {
        let mut tags = MsgStore::kept(msg, user);
        let diffs = msg.diff();
        let session = match mode {
            Mode::Flood => {
                tags.insert(Tag::empty(TAG_FLOOD));
                Session::Global
            },
            Mode::Std(_) => Session::Id(user),
        };
        self.inner.batch(session, msg_path(msg.id), tags, diffs)
    }

    /// Insert a message captured from the network
    ///
    /// The primary difference to `insert_local()` is that the inserted
    /// message will be marked as "unread" and can be retrieved via the
    /// "unread messages" query.
    pub fn insert_remote(&mut self, recipient: Option<Identity>, msg: &Message) -> (r: Result<
        (),
        Error,
    >)
        ensures
            ({
                let after = batched(
                    old(self)@,
                    remote_session(recipient),
                    msg_path_of(msg.id@),
                    remote_tags(msg@, recipient),
                    message_diffs(msg@),
                );
                match r {
                    Ok(()) => after == Ok::<LibraryView, Error>(final(self)@),
                    Err(e) => after == Err::<LibraryView, Error>(e) && final(self)@ == old(self)@,
                }
            }),
    {
        let mut tags = MsgStore::kept(msg, msg.sender);
        tags.insert(Tag::empty(TAG_UNREAD));
        proof {
            assert(tags@ =~= kept_tags(msg@, msg.sender@).insert(unread_tag()));
        }
        let diffs = msg.diff();
        let session = match recipient {
            Some(id) => Session::Id(id),
            None => {
                tags.insert(Tag::empty(TAG_FLOOD));
                Session::Global
            },
        };
        self.inner.batch(session, msg_path(msg.id), tags, diffs)
    }

    /// Marks a message as read: the record under its path, in the given
    /// namespace, loses the tag that says that it is unread.
    pub fn acknowledge(&mut self, session: Session, msg_id: Identity) -> (r: Result<(), Error>)
        ensures
            ({
                let after = batched(
                    old(self)@,
                    session,
                    msg_path_of(msg_id@),
                    Set::empty(),
                    seq![DiffView::TagRemove(unread_tag())],
                );
                match r {
                    Ok(()) => after == Ok::<LibraryView, Error>(final(self)@),
                    Err(e) => after == Err::<LibraryView, Error>(e) && final(self)@ == old(self)@,
                }
            }),
    {
        let mut diffs: Vec<Diff> = Vec::new();
        diffs.push(Diff::TagRemove(Tag::empty(TAG_UNREAD)));
        assert(diff_views(diffs@) =~= seq![DiffView::TagRemove(unread_tag())]);
        self.inner.batch(session, msg_path(msg_id), TagSet::empty(), diffs)
    }

    /// Check if a message for a service with a particular Id exists
    ///
    /// This is required to avoid duplicate insertions when sending
    /// messages to a group of people from a service. The message is
    /// looked for where `user` can read it: among the messages for
    /// everyone and among the user's own.
    pub fn probe_id(&self, user: Identity, msg_id: Identity) -> (r: bool)
        ensures
            r == probed(self@, user, msg_path_of(msg_id@)),
    {
        let path = msg_path(msg_id);
        let global = match self.inner.path_exists(Session::Global, &path) {
            Ok(found) => found,
            Err(_) => false,
        };
        let own = match self.inner.path_exists(Session::Id(user), &path) {
            Ok(found) => found,
            Err(_) => false,
        };
        global || own
    }

    fn query_both(&self, user: Identity, q: &Query) -> (r: Result<QueryResult<Message>, Error>)
        requires
            !(q@ matches QueryView::Path(p) && !rooted(p)),
        ensures
            match r {
                Ok(res) => {
                    &&& self@.users.contains(user)
                    &&& !res.holds_lock()
                    &&& exists|glb: Seq<Key>, usr: Seq<Key>|
                        {
                            &&& answers(self@.records, Session::Global, q@, glb)
                            &&& answers(self@.records, Session::Id(user), q@, usr)
                            &&& res.upcoming() == merged(glb, usr)
                        }
                },
                Err(e) => e == Error::NotAuthorised && !self@.users.contains(user),
            },
    {
        let mut glb = match self.inner.query(Session::Global, q) {
            Ok(it) => it,
            Err(e) => {
                return Err(e);
            },
        };
        let usr = match self.inner.query(Session::Id(user), q) {
            Ok(it) => it,
            Err(e) => {
                return Err(e);
            },
        };
        let ghost g = glb.upcoming();
        let ghost u = usr.upcoming();
        match glb.merge(usr) {
            Ok(()) => {},
            Err(e) => {
                return Err(e);
            },
        }
        assert(glb.upcoming() == merged(g, u));
        Ok(QueryResult::new(glb))
    }

    /// Query a message only via the message Id the path
    pub fn query_path(&self, user: Identity, msg_id: Identity) -> (r: Result<
        QueryResult<Message>,
        Error,
    >)
        ensures
            match r {
                Ok(res) => {
                    &&& self@.users.contains(user)
                    &&& !res.holds_lock()
                    &&& exists|glb: Seq<Key>, usr: Seq<Key>|
                        {
                            &&& answers(
                                self@.records,
                                Session::Global,
                                QueryView::Path(msg_path_of(msg_id@)),
                                glb,
                            )
                            &&& answers(
                                self@.records,
                                Session::Id(user),
                                QueryView::Path(msg_path_of(msg_id@)),
                                usr,
                            )
                            &&& res.upcoming() == merged(glb, usr)
                        }
                },
                Err(e) => e == Error::NotAuthorised && !self@.users.contains(user),
            },
    {
        let q = Query::path(msg_path(msg_id));
        self.query_both(user, &q)
    }

    fn asked_tags(service: &Service, sender: Option<Identity>, tags: TagSet) -> (r: TagSet)
        ensures
            r@ == query_tags(*service, sender, tags@),
    {
        let mut meta = match service {
            Service::Name(s) => TagSet::from(service_tag(s.as_str())),
            Service::God => TagSet::empty(),
        };
        meta.insert(Message::tag());
        match sender {
            Some(id) => {
                meta.insert(sender_tag(id));
            },
            None => {},
        }
        meta.merge(tags)
    }

    /// Return items from the store via a user query
    ///
    /// A query with an id asks for that message by its path. Any other
    /// asks for the messages that carry all of: the tag of the service,
    /// unless the library itself asks; the tag of messages; the tag of
    /// the sender, if one is named; and the tags of the query. Either
    /// way the global namespace and the user's are both searched.
    pub fn query(&self, user: Identity, service: Service, query: MsgQuery) -> (r: Result<
        QueryResult<Message>,
        Error,
    >)
        ensures
            ({
                let q = match query.id {
                    Some(id) => QueryView::Path(msg_path_of(id@)),
                    None => QueryView::Tag(
                        SetQueryView::Subset(query_tags(service, query.sender, query.tags@)),
                    ),
                };
                match r {
                    Ok(res) => {
                        &&& self@.users.contains(user)
                        &&& !res.holds_lock()
                        &&& exists|glb: Seq<Key>, usr: Seq<Key>|
                            {
                                &&& answers(self@.records, Session::Global, q, glb)
                                &&& answers(self@.records, Session::Id(user), q, usr)
                                &&& res.upcoming() == merged(glb, usr)
                            }
                    },
                    Err(e) => e == Error::NotAuthorised && !self@.users.contains(user),
                }
            }),
    {
        match query.id {
            Some(id) => {
                return self.query_path(user, id);
            },
            None => {},
        }
        let tags = MsgStore::asked_tags(&service, query.sender, query.tags);
        let q = Query::tags().subset(tags);
        self.query_both(user, &q)
    }

    /// Waits, in the namespace of `user`, for messages that carry the
    /// tag of the service (unless the library itself asks), the tags
    /// given and the tag of messages.
    pub fn subscribe(&mut self, user: Identity, service: Service, tags: TagSet) -> (r: Result<
        Subscription,
        Error,
    >)
        ensures
            ({
                let after = subscribed(
                    old(self)@,
                    Session::Id(user),
                    QueryView::Tag(SetQueryView::Subset(query_tags(service, None, tags@))),
                );
                match r {
                    Ok(sub) => after == Ok::<LibraryView, Error>(final(self)@) && sub.id == old(self)@.next_sub,
                    Err(e) => after == Err::<LibraryView, Error>(e) && final(self)@ == old(self)@,
                }
            }),
    {
        let asked = MsgStore::asked_tags(&service, None, tags);
        self.inner.subscribe(Session::Id(user), Query::tags().subset(asked))
    }

    /// Hands out the next message that `sub` has waited for, if one has
    /// come. A message that has gone since is passed over as no data.
    pub fn next_message(&mut self, user: Identity, sub: &Subscription) -> (r: Result<
        Option<Message>,
        Error,
    >)
        ensures
            final(self)@ == next_message_of(old(self)@, user, sub.id).1,
            match r {
                Ok(Some(m)) => next_message_of(old(self)@, user, sub.id).0 == Ok::<
                    Option<MessageView>,
                    Error,
                >(Some(m@)),
                Ok(None) => next_message_of(old(self)@, user, sub.id).0 == Ok::<
                    Option<MessageView>,
                    Error,
                >(None),
                Err(e) => next_message_of(old(self)@, user, sub.id).0 == Err::<
                    Option<MessageView>,
                    Error,
                >(e),
            },
    {
        match self.inner.poll(sub) {
            Err(e) => Err(e),
            Ok(None) => Ok(None),
            Ok(Some(path)) => match self.inner.get(Session::Id(user), &path) {
                None => Err(Error::NoData),
                Some(rec) => match Message::from_rec(&rec) {
                    Some(m) => Ok(Some(m)),
                    None => Err(Error::NoData),
                },
            },
        }
    }
}

/// What asking for the next message of one who waits gives, and the
/// store after it: the oldest queued path is handed out, if there is
/// one, and the message under it in the namespace of `user` is read.
pub open spec fn next_message_of(v: LibraryView, user: Identity, sub: usize) -> (
    Result<Option<MessageView>, Error>,
    LibraryView,
) {
    match sub_position(v.subs, sub) {
        None => (Err(Error::NoData), v),
        Some(i) => if v.subs[i].queue.len() == 0 {
            (Ok(None), v)
        } else {
            let key = (Session::Id(user), v.subs[i].queue[0]);
            let after = LibraryView { subs: handed(v.subs, i), ..v };
            if v.records.contains_key(key) && message_of(v.records[key]) is Some {
                (Ok(message_of(v.records[key])), after)
            } else {
                (Err(Error::NoData), after)
            }
        },
    }
}

} // verus!
