//! The core state: the users of this node and those it has heard of,
//! their sessions and contact books, the services, and the messages.

use crate::assoc::Assoc;
use crate::contacts::{
    asked_for, blank_entry, noted_all, ContactEntry, ContactEntryView, ContactQuery,
    ContactQueryView, ContactUpdate, ContactUpdateView,
};
use crate::error::Error;
use crate::identity::Identity;
use crate::idmap::{chosen, lemma_chosen, IdMap};
use crate::helpers::{resolved, QueryResult};
use crate::messages::{
    local_session, local_tags, message_diffs, msg_path_of, next_message_of, query_tags, Message,
    MessageView, Mode, MsgQuery, MsgStore, Service,
};
use crate::store::library::{answers, batched, merged, subscribed, Key, Subscription};
use crate::store::query::{QueryView, SetQueryView};
use crate::store::record::Session;
use crate::tags::{TagSet, TagView};
use crate::store::library::{Library, LibraryView};
use crate::users::{
    text_view, updated, Token, UserAuth, UserProfile, UserProfileView, UserUpdate, UserUpdateView,
};
use vstd::prelude::*;

verus! {

/// What the core holds of one user, as a contract sees it.
#[verifier::ext_equal]
pub struct UserEntryView {
    pub profile: UserProfileView,
    /// The passphrase, for a user of this node
    pub pw: Option<Seq<char>>,
    /// The token of the session, while the user is logged in
    pub token: Option<Seq<char>>,
    pub contacts: Map<Seq<u8>, ContactEntryView>,
}

/// What the core holds of one user.
#[derive(Debug)]
pub struct UserEntry {
    profile: UserProfile,
    pw: Option<String>,
    token: Option<String>,
    contacts: IdMap<ContactEntry>,
}

impl View for UserEntry {
    type V = UserEntryView;

    closed spec fn view(&self) -> UserEntryView {
        UserEntryView {
            profile: self.profile@,
            pw: text_view(self.pw),
            token: text_view(self.token),
            contacts: self.contacts@,
        }
    }
}

/// What the core is to a contract.
#[verifier::ext_equal]
pub struct QaulView {
    pub users: Map<Seq<u8>, UserEntryView>,
    pub store: LibraryView,
    pub services: Set<Seq<char>>,
}

/// Whether `token` is the token of a live session of the user `id`.
pub open spec fn trusts(v: QaulView, id: Seq<u8>, token: Seq<char>) -> bool {
    v.users.contains_key(id) && v.users[id].token == Some(token)
}

/// The entry of a user of this node who has just been created.
pub open spec fn created_entry(id: Seq<u8>, pw: Seq<char>, token: Seq<char>) -> UserEntryView {
    UserEntryView {
        profile: UserProfileView {
            id,
            display_name: None,
            real_name: None,
            bio: Map::empty(),
            services: Set::empty(),
            avatar: None,
        },
        pw: Some(pw),
        token: Some(token),
        contacts: Map::empty(),
    }
}

/// The core after `change` was made to the entry of the user `id`.
pub open spec fn with_user(v: QaulView, id: Seq<u8>, entry: UserEntryView) -> QaulView {
    QaulView { users: v.users.insert(id, entry), ..v }
}

/// The core state
#[derive(Debug)]
pub struct Qaul {
    users: IdMap<UserEntry>,
    messages: MsgStore,
    services: Assoc<()>,
}

impl View for Qaul {
    type V = QaulView;

    closed spec fn view(&self) -> QaulView {
        QaulView { users: self.users@, store: self.messages@, services: self.services@.dom() }
    }
}

impl Qaul {
    /// A core without users or services, on top of a store.
    pub fn new(store: Library) -> (r: Self)
        ensures
            r@ == (QaulView { users: Map::empty(), store: store@, services: Set::empty() }),
    {
        let r = Qaul { users: IdMap::new(), messages: MsgStore::new(store), services: Assoc::new() };
        assert(r.services@.dom() =~= Set::<Seq<char>>::empty());
        r
    }

    /// The message store.
    pub fn messages(&self) -> (r: &MsgStore)
        ensures
            r@ == self@.store,
    {
        &self.messages
    }

    /// Verifies that `auth` names a live session: the user is known and
    /// logged in with this token.
    pub fn trusted(&self, auth: &UserAuth) -> (r: Result<(Identity, Token), Error>)
        ensures
            match r {
                Ok((id, token)) => trusts(self@, auth.0@, auth.1@) && id == auth.0 && token@
                    == auth.1@,
                Err(e) => e == Error::NotAuthorised && !trusts(self@, auth.0@, auth.1@),
            },
    {
        match self.users.get(&auth.0) {
            Some(entry) => match &entry.token {
                Some(t) => {
                    if *t == auth.1 {
                        Ok((auth.0, t.clone()))
                    } else {
                        Err(Error::NotAuthorised)
                    }
                },
                None => Err(Error::NotAuthorised),
            },
            None => Err(Error::NotAuthorised),
        }
    }

    /// Create a new user on this machine, with a session
    ///
    /// The identity and the token are made by the caller, by chance. An
    /// identity that is taken already is refused.
    pub fn user_create(&mut self, id: Identity, pw: &str, token: Token) -> (r: Result<
        UserAuth,
        Error,
    >)
        ensures
            user_create_post(old(self)@, id, pw@, token, r, final(self)@),
    {
        if self.users.contains_key(&id) {
            return Err(Error::InvalidPayload);
        }
        let entry = UserEntry {
            profile: UserProfile::new(id),
            pw: Some(pw.to_owned()),
            token: Some(token.clone()),
            contacts: IdMap::new(),
        };
        self.users.set(id, entry);
        self.messages.add_user(id);
        Ok(UserAuth(id, token))
    }

    /// Takes in the profile of a user of another node. A user that is
    /// known already keeps the profile that the core has.
    pub fn discover(&mut self, profile: UserProfile)
        ensures
            final(self)@ == if old(self)@.users.contains_key(profile.id@) {
                old(self)@
            } else {
                with_user(
                    old(self)@,
                    profile.id@,
                    UserEntryView { profile: profile@, pw: None, token: None, contacts: Map::empty() },
                )
            },
    {
        if !self.users.contains_key(&profile.id) {
            let id = profile.id;
            self.users.set(id, UserEntry { profile, pw: None, token: None, contacts: IdMap::new() });
        }
    }

    /// Login as a user to get an auth token
    ///
    /// Only a user of this node can log in, with their passphrase. If
    /// a session exists already, its token is handed out and `token` is
    /// left unused.
    pub fn user_login(&mut self, id: Identity, pw: &str, token: Token) -> (r: Result<
        UserAuth,
        Error,
    >)
        ensures
            user_login_post(old(self)@, id, pw@, token, r, final(self)@),
    {
        let known = match self.users.get(&id) {
            None => {
                return Err(Error::NoUser);
            },
            Some(entry) => match &entry.pw {
                None => {
                    return Err(Error::NoUser);
                },
                Some(have) => {
                    if !crate::text::same_text(have.as_str(), pw) {
                        return Err(Error::NotAuthorised);
                    }
                    match &entry.token {
                        Some(t) => Some(t.clone()),
                        None => None,
                    }
                },
            },
        };
        match known {
            Some(t) => Ok(UserAuth(id, t)),
            None => {
                let ghost before = self@;
                let mut entry = self.users.remove(&id).unwrap();
                entry.token = Some(token.clone());
                self.users.set(id, entry);
                assert(self@.users =~= before.users.insert(
                    id@,
                    UserEntryView { token: Some(token@), ..before.users[id@] },
                ));
                Ok(UserAuth(id, token))
            },
        }
    }

    /// End a user session
    pub fn user_logout(&mut self, auth: &UserAuth) -> (r: Result<(), Error>)
        ensures
            user_logout_post(old(self)@, auth, r, final(self)@),
    {
        match self.trusted(auth) {
            Err(e) => Err(e),
            Ok(_) => {
                let ghost before = self@;
                let mut entry = self.users.remove(&auth.0).unwrap();
                entry.token = None;
                self.users.set(auth.0, entry);
                assert(self@.users =~= before.users.insert(
                    auth.0@,
                    UserEntryView { token: None, ..before.users[auth.0@] },
                ));
                Ok(())
            },
        }
    }

    /// Delete a local user
    pub fn user_delete(&mut self, auth: &UserAuth) -> (r: Result<(), Error>)
        ensures
            user_delete_post(old(self)@, auth, r, final(self)@),
    {
        match self.trusted(auth) {
            Err(e) => Err(e),
            Ok(_) => {
                let _ = self.users.remove(&auth.0);
                Ok(())
            },
        }
    }

    /// Change a user's passphrase
    pub fn user_change_pw(&mut self, auth: &UserAuth, new_pw: &str) -> (r: Result<(), Error>)
        ensures
            user_change_pw_post(old(self)@, auth, new_pw@, r, final(self)@),
    {
        match self.trusted(auth) {
            Err(e) => Err(e),
            Ok(_) => {
                let ghost before = self@;
                let mut entry = self.users.remove(&auth.0).unwrap();
                entry.pw = Some(new_pw.to_owned());
                self.users.set(auth.0, entry);
                assert(self@.users =~= before.users.insert(
                    auth.0@,
                    UserEntryView { pw: Some(new_pw@), ..before.users[auth.0@] },
                ));
                Ok(())
            },
        }
    }

    /// Get data on a particular user
    pub fn user_get(&self, id: Identity) -> (r: Result<UserProfile, Error>)
        ensures
            user_get_post(self@, id, r, self@),
    {
        match self.users.get(&id) {
            Some(entry) => Ok(entry.profile.clone()),
            None => Err(Error::NoUser),
        }
    }

    /// Update a user
    pub fn user_update(&mut self, auth: &UserAuth, update: UserUpdate) -> (r: Result<(), Error>)
        ensures
            user_update_post(old(self)@, auth, update, r, final(self)@),
    {
        match self.trusted(auth) {
            Err(e) => Err(e),
            Ok(_) => {
                let ghost before = self@;
                let mut entry = self.users.remove(&auth.0).unwrap();
                update.apply_to(&mut entry.profile);
                self.users.set(auth.0, entry);
                assert(self@.users =~= before.users.insert(
                    auth.0@,
                    UserEntryView {
                        profile: updated(before.users[auth.0@].profile, update@),
                        ..before.users[auth.0@]
                    },
                ));
                Ok(())
            },
        }
    }
}

/// Which users a listing asks for.
#[derive(Clone, Copy, Debug, PartialEq, Eq, Structural)]
pub enum Listing {
    /// Every user that the core knows
    All,
    /// The users of this node
    Local,
    /// The users of other nodes
    Remote,
}

/// Whether a listing asks for a user.
pub open spec fn listed(which: Listing, entry: UserEntryView) -> bool {
    match which {
        Listing::All => true,
        Listing::Local => entry.pw is Some,
        Listing::Remote => entry.pw is None,
    }
}

/// The identities that a list of identities holds, as their bytes.
pub open spec fn id_views(ids: Seq<Identity>) -> Seq<Seq<u8>> {
    ids.map_values(|i: Identity| i@)
}

/// The query that the message store is asked on behalf of a user.
pub open spec fn message_query_of(service: Service, query: MsgQuery) -> QueryView {
    match query.id {
        Some(id) => QueryView::Path(msg_path_of(id@)),
        None => QueryView::Tag(SetQueryView::Subset(query_tags(service, query.sender, query.tags@))),
    }
}

impl Qaul {
    /// The profiles of the users that the listing asks for, each once.
    pub fn user_list(&self, which: Listing) -> (r: Vec<UserProfile>)
        ensures
            user_list_post(self@, which, r, self@),
    {
        let all = self.users.ids();
        let ghost keys = self.users.keys();
        let ghost keep = |k: Seq<u8>| self@.users.contains_key(k) && listed(which, self@.users[k]);
        let mut out: Vec<UserProfile> = Vec::new();
        let mut i: usize = 0;
        proof {
            self.users.lemma_keys();
        }
        while i < all.len()
            invariant
                i <= all.len(),
                keys == self.users.keys(),
                keys.to_set() == self@.users.dom(),
                id_views(all@) == keys,
                keep == |k: Seq<u8>| self@.users.contains_key(k) && listed(which, self@.users[k]),
                out@.map_values(|p: UserProfile| p@) == chosen(keys.take(i as int), keep).map_values(
                    |k: Seq<u8>| self@.users[k].profile,
                ),
            decreases all.len() - i,
        {
            let ghost k = keys[i as int];
            assert(id_views(all@)[i as int] == all@[i as int]@);
            assert(keys.take(i + 1).drop_last() =~= keys.take(i as int));
            assert(keys.take(i + 1).last() == k);
            assert(keys.to_set().contains(k)) by {
                assert(keys.contains(k));
            }
            let entry = self.users.get(&all[i]).unwrap();
            let wanted = match which {
                Listing::All => true,
                Listing::Local => entry.pw.is_some(),
                Listing::Remote => entry.pw.is_none(),
            };
            if wanted {
                let ghost before = out@.map_values(|p: UserProfile| p@);
                out.push(entry.profile.clone());
                assert(out@.map_values(|p: UserProfile| p@) =~= before.push(self@.users[k].profile));
                assert(chosen(keys.take(i + 1), keep).map_values(
                    |k: Seq<u8>| self@.users[k].profile,
                ) =~= chosen(keys.take(i as int), keep).map_values(
                    |k: Seq<u8>| self@.users[k].profile,
                ).push(self@.users[k].profile));
            }
            i += 1;
        }
        proof {
            assert(keys.take(i as int) =~= keys);
            lemma_chosen(keys, keep);
            let ids = chosen(keys, keep);
            assert forall|k: Seq<u8>| #[trigger]
                ids.contains(k) <==> self@.users.contains_key(k) && listed(
                    which,
                    self@.users[k],
                ) by {
                if self@.users.contains_key(k) {
                    assert(keys.to_set().contains(k));
                }
            }
        }
        out
    }

    /// Registers a service under its name.
    pub fn register_service(&mut self, name: &str) -> (r: Result<(), Error>)
        ensures
            register_service_post(old(self)@, name@, r, final(self)@),
    {
        if self.services.contains_key(name) {
            Err(Error::ServiceExists)
        } else {
            self.services.set(name.to_owned(), ());
            assert(self@.services =~= old(self)@.services.insert(name@));
            Ok(())
        }
    }

    /// Takes a service off the registry.
    pub fn unregister_service(&mut self, name: &str) -> (r: Result<(), Error>)
        ensures
            unregister_service_post(old(self)@, name@, r, final(self)@),
    {
        if self.services.remove(name) {
            assert(self@.services =~= old(self)@.services.remove(name@));
            Ok(())
        } else {
            assert(self@.services =~= old(self)@.services);
            Err(Error::NoService)
        }
    }

    /// Modify a user's contact entry in a user-local contact book
    ///
    /// The changes are made in their order to what the user has noted
    /// about `contact`. If no contact entry existed before, a fresh one
    /// is made first.
    pub fn contact_modify(
        &mut self,
        auth: &UserAuth,
        contact: Identity,
        changes: Vec<ContactUpdate>,
    ) -> (r: Result<(), Error>)
        ensures
            contact_modify_post(old(self)@, auth, contact, changes, r, final(self)@),
    {
        match self.trusted(auth) {
            Err(e) => Err(e),
            Ok(_) => {
                let ghost before = self@;
                let mut entry = self.users.remove(&auth.0).unwrap();
                let mut noted = match entry.contacts.remove(&contact) {
                    Some(c) => c,
                    None => ContactEntry::default(),
                };
                noted.apply_all(changes);
                let ghost had = entry.contacts@;
                entry.contacts.set(contact, noted);
                assert(entry.contacts@ =~= before.users[auth.0@].contacts.insert(contact@, noted@));
                self.users.set(auth.0, entry);
                assert(self@.users =~= before.users.insert(
                    auth.0@,
                    UserEntryView {
                        contacts: before.users[auth.0@].contacts.insert(contact@, noted@),
                        ..before.users[auth.0@]
                    },
                ));
                Ok(())
            },
        }
    }

    /// Get a single `ContactEntry` from a user's contact book
    pub fn contact_get(&self, auth: &UserAuth, contact: &Identity) -> (r: Result<
        ContactEntry,
        Error,
    >)
        ensures
            contact_get_post(self@, auth, contact, r, self@),
    {
        match self.trusted(auth) {
            Err(e) => Err(e),
            Ok(_) => {
                let entry = self.users.get(&auth.0).unwrap();
                match entry.contacts.get(contact) {
                    Some(c) => Ok(c.clone()),
                    None => Err(Error::NoContact),
                }
            },
        }
    }

    fn contacts_where(&self, auth: &UserAuth, query: Option<&ContactQuery>) -> (r: Result<
        Vec<Identity>,
        Error,
    >)
        ensures
            match r {
                Ok(ids) => {
                    let book = self@.users[auth.0@].contacts;
                    &&& trusts(self@, auth.0@, auth.1@)
                    &&& id_views(ids@).no_duplicates()
                    &&& forall|k: Seq<u8>| #[trigger]
                        id_views(ids@).contains(k) <==> book.contains_key(k) && (query matches Some(
                            q,
                        ) ==> asked_for(q@, book[k]))
                },
                Err(e) => e == Error::NotAuthorised && !trusts(self@, auth.0@, auth.1@),
            },
    {
        match self.trusted(auth) {
            Err(e) => Err(e),
            Ok(_) => {
                let entry = self.users.get(&auth.0).unwrap();
                let all = entry.contacts.ids();
                let ghost book = entry.contacts@;
                let ghost keys = entry.contacts.keys();
                let ghost keep = |k: Seq<u8>|
                    book.contains_key(k) && (query matches Some(q) ==> asked_for(q@, book[k]));
                let mut out: Vec<Identity> = Vec::new();
                let mut i: usize = 0;
                proof {
                    entry.contacts.lemma_keys();
                }
                while i < all.len()
                    invariant
                        i <= all.len(),
                        book == entry.contacts@,
                        keys == entry.contacts.keys(),
                        keys.to_set() == book.dom(),
                        id_views(all@) == keys,
                        keep == |k: Seq<u8>|
                            book.contains_key(k) && (query matches Some(q) ==> asked_for(
                                q@,
                                book[k],
                            )),
                        id_views(out@) == chosen(keys.take(i as int), keep),
                    decreases all.len() - i,
                {
                    let ghost k = keys[i as int];
                    assert(id_views(all@)[i as int] == all@[i as int]@);
                    assert(keys.take(i + 1).drop_last() =~= keys.take(i as int));
                    assert(keys.take(i + 1).last() == k);
                    assert(keys.to_set().contains(k)) by {
                        assert(keys.contains(k));
                    }
                    let c = entry.contacts.get(&all[i]).unwrap();
                    let wanted = match query {
                        Some(q) => c.answers(q),
                        None => true,
                    };
                    if wanted {
                        let ghost before = id_views(out@);
                        out.push(all[i]);
                        assert(id_views(out@) =~= before.push(k));
                    }
                    i += 1;
                }
                proof {
                    assert(keys.take(i as int) =~= keys);
                    lemma_chosen(keys, keep);
                    assert forall|k: Seq<u8>| #[trigger]
                        id_views(out@).contains(k) <==> book.contains_key(k) && (
                        query matches Some(q) ==> asked_for(q@, book[k])) by {
                        if book.contains_key(k) {
                            assert(keys.to_set().contains(k));
                        }
                    }
                }
                Ok(out)
            },
        }
    }

    /// Query for a subset of users that have a `ContactEntry`
    pub fn contact_query(&self, auth: &UserAuth, query: &ContactQuery) -> (r: Result<
        Vec<Identity>,
        Error,
    >)
        ensures
            contact_query_post(self@, auth, query, r, self@),
    {
        self.contacts_where(auth, Some(query))
    }

    /// Get all users that have a `ContactEntry` for this user
    pub fn contact_all(&self, auth: &UserAuth) -> (r: Result<Vec<Identity>, Error>)
        ensures
            contact_all_post(self@, auth, r, self@),
    {
        self.contacts_where(auth, None)
    }

    /// Send a raw message
    ///
    /// The message is made of what the service hands over, with `id`,
    /// which the caller has made by chance, and kept in the store as one
    /// that was sent from here. It comes back for the router to carry.
    pub fn message_send(
        &mut self,
        auth: &UserAuth,
        id: Identity,
        mode: Mode,
        service: &str,
        tags: TagSet,
        payload: Vec<u8>,
    ) -> (r: Result<Message, Error>)
        ensures
            message_send_post(old(self)@, auth, id, mode, service@, tags, payload, r, final(self)@),
    {
        match self.trusted(auth) {
            Err(e) => {
                return Err(e);
            },
            Ok(_) => {},
        }
        if !self.services.contains_key(service) {
            return Err(Error::NoService);
        }
        let msg = Message { id, sender: auth.0, associator: service.to_owned(), tags, payload };
        match self.messages.insert_local(auth.0, &msg, mode) {
            Ok(()) => Ok(msg),
            Err(e) => Err(e),
        }
    }

    /// Query existing raw messages
    ///
    /// The global namespace and the user's are searched; the messages
    /// come in the order of their paths, and those that cannot be read
    /// are left out.
    pub fn message_query(&self, auth: &UserAuth, service: Service, query: MsgQuery) -> (r: Result<
        Vec<Message>,
        Error,
    >)
        ensures
            message_query_post(self@, auth, service, query, r, self@),
    {
        match self.trusted(auth) {
            Err(e) => {
                return Err(e);
            },
            Ok(_) => {},
        }
        match self.messages.query(auth.0, service, query) {
            Err(e) => Err(e),
            Ok(res) => {
                let mut res = res;
                Ok(res.resolve(self.messages.library()))
            },
        }
    }

    /// Create a subscription for raw messages
    pub fn message_subscribe(&mut self, auth: &UserAuth, service: Service, tags: TagSet) -> (r: Result<Subscription, Error>)
        ensures
            message_subscribe_post(old(self)@, auth, service, tags, r, final(self)@),
    {
        match self.trusted(auth) {
            Err(e) => {
                return Err(e);
            },
            Ok(_) => {},
        }
        self.messages.subscribe(auth.0, service, tags)
    }

    /// Poll the next raw message of a subscription
    pub fn message_next(&mut self, auth: &UserAuth, sub: &Subscription) -> (r: Result<
        Option<Message>,
        Error,
    >)
        ensures
            message_next_post(old(self)@, auth, sub, r, final(self)@),
    {
        match self.trusted(auth) {
            Err(e) => {
                return Err(e);
            },
            Ok(_) => {},
        }
        self.messages.next_message(auth.0, sub)
    }
}

/// What `user_create` returns and leaves behind.
pub open spec fn user_create_post(
    before: QaulView,
    id: Identity,
    pw: Seq<char>,
    token: Token,
    r: Result<UserAuth, Error>,
    after: QaulView,
) -> bool {
    match r {
        Ok(auth) => {
            &&& !before.users.contains_key(id@)
            &&& auth.0 == id
            &&& auth.1@ == token@
            &&& after == (QaulView {
                users: before.users.insert(id@, created_entry(id@, pw, token@)),
                store: LibraryView {
                    users: before.store.users.insert(id),
                    ..before.store
                },
                ..before
            })
        },
        Err(e) => e == Error::InvalidPayload && before.users.contains_key(id@) && after == before,
    }
}

/// What `user_login` returns and leaves behind.
pub open spec fn user_login_post(
    before: QaulView,
    id: Identity,
    pw: Seq<char>,
    token: Token,
    r: Result<UserAuth, Error>,
    after: QaulView,
) -> bool {
    match r {
        Ok(auth) => {
            &&& before.users.contains_key(id@)
            &&& before.users[id@].pw == Some(pw)
            &&& auth.0 == id
            &&& match before.users[id@].token {
                Some(t) => auth.1@ == t && after == before,
                None => auth.1@ == token@ && after == with_user(
                    before,
                    id@,
                    UserEntryView { token: Some(token@), ..before.users[id@] },
                ),
            }
        },
        Err(e) => {
            &&& after == before
            &&& if !before.users.contains_key(id@) || before.users[id@].pw is None {
                e == Error::NoUser
            } else {
                e == Error::NotAuthorised && before.users[id@].pw != Some(pw)
            }
        },
    }
}

/// What `user_logout` returns and leaves behind.
pub open spec fn user_logout_post(
    before: QaulView,
    auth: &UserAuth,
    r: Result<(), Error>,
    after: QaulView,
) -> bool {
    match r {
        Ok(()) => trusts(before, auth.0@, auth.1@) && after == with_user(
            before,
            auth.0@,
            UserEntryView { token: None, ..before.users[auth.0@] },
        ),
        Err(e) => e == Error::NotAuthorised && !trusts(before, auth.0@, auth.1@)
            && after == before,
    }
}

/// What `user_delete` returns and leaves behind.
pub open spec fn user_delete_post(
    before: QaulView,
    auth: &UserAuth,
    r: Result<(), Error>,
    after: QaulView,
) -> bool {
    match r {
        Ok(()) => trusts(before, auth.0@, auth.1@) && after == (QaulView {
            users: before.users.remove(auth.0@),
            ..before
        }),
        Err(e) => e == Error::NotAuthorised && !trusts(before, auth.0@, auth.1@)
            && after == before,
    }
}

/// What `user_change_pw` returns and leaves behind.
pub open spec fn user_change_pw_post(
    before: QaulView,
    auth: &UserAuth,
    new_pw: Seq<char>,
    r: Result<(), Error>,
    after: QaulView,
) -> bool {
    match r {
        Ok(()) => trusts(before, auth.0@, auth.1@) && after == with_user(
            before,
            auth.0@,
            UserEntryView { pw: Some(new_pw), ..before.users[auth.0@] },
        ),
        Err(e) => e == Error::NotAuthorised && !trusts(before, auth.0@, auth.1@)
            && after == before,
    }
}

/// What `user_get` returns and leaves behind.
pub open spec fn user_get_post(
    before: QaulView,
    id: Identity,
    r: Result<UserProfile, Error>,
    after: QaulView,
) -> bool {
    match r {
        Ok(p) => before.users.contains_key(id@) && p@ == before.users[id@].profile,
        Err(e) => e == Error::NoUser && !before.users.contains_key(id@),
    }
}

/// What `user_update` returns and leaves behind.
pub open spec fn user_update_post(
    before: QaulView,
    auth: &UserAuth,
    update: UserUpdate,
    r: Result<(), Error>,
    after: QaulView,
) -> bool {
    match r {
        Ok(()) => trusts(before, auth.0@, auth.1@) && after == with_user(
            before,
            auth.0@,
            UserEntryView {
                profile: updated(before.users[auth.0@].profile, update@),
                ..before.users[auth.0@]
            },
        ),
        Err(e) => e == Error::NotAuthorised && !trusts(before, auth.0@, auth.1@)
            && after == before,
    }
}

/// What `user_list` returns and leaves behind.
pub open spec fn user_list_post(
    before: QaulView,
    which: Listing,
    r: Vec<UserProfile>,
    after: QaulView,
) -> bool {
    exists|ids: Seq<Seq<u8>>|
        {
            &&& ids.no_duplicates()
            &&& forall|k: Seq<u8>| #[trigger]
                ids.contains(k) <==> before.users.contains_key(k) && listed(
                    which,
                    before.users[k],
                )
            &&& r@.map_values(|p: UserProfile| p@) == ids.map_values(
                |k: Seq<u8>| before.users[k].profile,
            )
        }
}

/// What `register_service` returns and leaves behind.
pub open spec fn register_service_post(
    before: QaulView,
    name: Seq<char>,
    r: Result<(), Error>,
    after: QaulView,
) -> bool {
    match r {
        Ok(()) => !before.services.contains(name) && after == (QaulView {
            services: before.services.insert(name),
            ..before
        }),
        Err(e) => e == Error::ServiceExists && before.services.contains(name)
            && after == before,
    }
}

/// What `unregister_service` returns and leaves behind.
pub open spec fn unregister_service_post(
    before: QaulView,
    name: Seq<char>,
    r: Result<(), Error>,
    after: QaulView,
) -> bool {
    match r {
        Ok(()) => before.services.contains(name) && after == (QaulView {
            services: before.services.remove(name),
            ..before
        }),
        Err(e) => e == Error::NoService && !before.services.contains(name) && after == before,
    }
}

/// What `contact_modify` returns and leaves behind.
pub open spec fn contact_modify_post(
    before: QaulView,
    auth: &UserAuth,
    contact: Identity,
    changes: Vec<ContactUpdate>,
    r: Result<(), Error>,
    after: QaulView,
) -> bool {
    match r {
        Ok(()) => {
            let had = before.users[auth.0@];
            let entry = if had.contacts.contains_key(contact@) {
                had.contacts[contact@]
            } else {
                blank_entry()
            };
            &&& trusts(before, auth.0@, auth.1@)
            &&& after == with_user(
                before,
                auth.0@,
                UserEntryView {
                    contacts: had.contacts.insert(
                        contact@,
                        noted_all(entry, changes@.map_values(|u: ContactUpdate| u@)),
                    ),
                    ..had
                },
            )
        },
        Err(e) => e == Error::NotAuthorised && !trusts(before, auth.0@, auth.1@)
            && after == before,
    }
}

/// What `contact_get` returns and leaves behind.
pub open spec fn contact_get_post(
    before: QaulView,
    auth: &UserAuth,
    contact: &Identity,
    r: Result<ContactEntry, Error>,
    after: QaulView,
) -> bool {
    match r {
        Ok(c) => {
            &&& trusts(before, auth.0@, auth.1@)
            &&& before.users[auth.0@].contacts.contains_key(contact@)
            &&& c@ == before.users[auth.0@].contacts[contact@]
        },
        Err(e) => if !trusts(before, auth.0@, auth.1@) {
            e == Error::NotAuthorised
        } else {
            e == Error::NoContact && !before.users[auth.0@].contacts.contains_key(contact@)
        },
    }
}

/// What `contact_query` returns and leaves behind.
pub open spec fn contact_query_post(
    before: QaulView,
    auth: &UserAuth,
    query: &ContactQuery,
    r: Result<Vec<Identity>, Error>,
    after: QaulView,
) -> bool {
    match r {
        Ok(ids) => {
            let book = before.users[auth.0@].contacts;
            &&& trusts(before, auth.0@, auth.1@)
            &&& id_views(ids@).no_duplicates()
            &&& forall|k: Seq<u8>| #[trigger]
                id_views(ids@).contains(k) <==> book.contains_key(k) && asked_for(
                    query@,
                    book[k],
                )
        },
        Err(e) => e == Error::NotAuthorised && !trusts(before, auth.0@, auth.1@),
    }
}

/// What `contact_all` returns and leaves behind.
pub open spec fn contact_all_post(
    before: QaulView,
    auth: &UserAuth,
    r: Result<Vec<Identity>, Error>,
    after: QaulView,
) -> bool {
    match r {
        Ok(ids) => {
            let book = before.users[auth.0@].contacts;
            &&& trusts(before, auth.0@, auth.1@)
            &&& id_views(ids@).no_duplicates()
            &&& forall|k: Seq<u8>| #[trigger]
                id_views(ids@).contains(k) <==> book.contains_key(k)
        },
        Err(e) => e == Error::NotAuthorised && !trusts(before, auth.0@, auth.1@),
    }
}

/// What `message_send` returns and leaves behind.
pub open spec fn message_send_post(
    before: QaulView,
    auth: &UserAuth,
    id: Identity,
    mode: Mode,
    service: Seq<char>,
    tags: TagSet,
    payload: Vec<u8>,
    r: Result<Message, Error>,
    after: QaulView,
) -> bool {
    ({
        let msg = MessageView {
            id: id@,
            sender: auth.0@,
            associator: service,
            tags: tags@,
            payload: payload@,
        };
        let stored = batched(
            before.store,
            local_session(auth.0, mode),
            msg_path_of(id@),
            local_tags(msg, auth.0@, mode),
            message_diffs(msg),
        );
        if !trusts(before, auth.0@, auth.1@) {
            {
                &&& r matches Err(e)
                &&& e == Error::NotAuthorised
                &&& after == before
            }
        } else if !before.services.contains(service) {
            {
                &&& r matches Err(e)
                &&& e == Error::NoService
                &&& after == before
            }
        } else {
            match r {
                Ok(m) => {
                    &&& m@ == msg
                    &&& stored matches Ok(kept)
                    &&& after == (QaulView { store: kept, ..before })
                },
                Err(e) => stored == Err::<LibraryView, Error>(e) && after == before,
            }
        }
    })
}

/// What `message_query` returns and leaves behind.
pub open spec fn message_query_post(
    before: QaulView,
    auth: &UserAuth,
    service: Service,
    query: MsgQuery,
    r: Result<Vec<Message>, Error>,
    after: QaulView,
) -> bool {
    match r {
        Ok(msgs) => {
            &&& trusts(before, auth.0@, auth.1@)
            &&& exists|glb: Seq<Key>, usr: Seq<Key>|
                {
                    &&& answers(
                        before.store.records,
                        Session::Global,
                        message_query_of(service, query),
                        glb,
                    )
                    &&& answers(
                        before.store.records,
                        Session::Id(auth.0),
                        message_query_of(service, query),
                        usr,
                    )
                    &&& msgs@.map_values(|m: Message| m@) == resolved::<Message>(
                        before.store.records,
                        merged(glb, usr),
                    )
                }
        },
        Err(e) => e == Error::NotAuthorised && (!trusts(before, auth.0@, auth.1@)
            || !before.store.users.contains(auth.0)),
    }
}

/// What `message_subscribe` returns and leaves behind.
pub open spec fn message_subscribe_post(
    before: QaulView,
    auth: &UserAuth,
    service: Service,
    tags: TagSet,
    r: Result<Subscription, Error>,
    after: QaulView,
) -> bool {
    let wanted = subscribed(
        before.store,
        Session::Id(auth.0),
        QueryView::Tag(SetQueryView::Subset(query_tags(service, None, tags@))),
    );
    if !trusts(before, auth.0@, auth.1@) {
        &&& r matches Err(e)
        &&& e == Error::NotAuthorised
        &&& after == before
    } else {
        match r {
            Ok(sub) => {
                &&& sub.id == before.store.next_sub
                &&& wanted matches Ok(store)
                &&& after == (QaulView { store, ..before })
            },
            Err(e) => wanted == Err::<LibraryView, Error>(e) && after == before,
        }
    }
}

/// What `message_next` returns and leaves behind.
pub open spec fn message_next_post(
    before: QaulView,
    auth: &UserAuth,
    sub: &Subscription,
    r: Result<Option<Message>, Error>,
    after: QaulView,
) -> bool {
    if !trusts(before, auth.0@, auth.1@) {
        &&& r matches Err(e)
        &&& e == Error::NotAuthorised
        &&& after == before
    } else {
        let next = next_message_of(before.store, auth.0, sub.id);
        &&& after == (QaulView { store: next.1, ..before })
        &&& match r {
            Ok(Some(m)) => next.0 == Ok::<Option<MessageView>, Error>(Some(m@)),
            Ok(None) => next.0 == Ok::<Option<MessageView>, Error>(None),
            Err(e) => next.0 == Err::<Option<MessageView>, Error>(e),
        }
    }
}

} // verus!
