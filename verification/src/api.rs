//! The scopes of the service API: each gathers the functions of one
//! subject on top of the core.

use crate::contacts::{ContactEntry, ContactQuery, ContactUpdate};
use crate::error::Error;
use crate::identity::Identity;
use crate::qaul::{
    contact_all_post, contact_get_post, contact_modify_post, contact_query_post, Qaul,
};
use crate::users::UserAuth;
use vstd::prelude::*;

verus! {

/// API scope type to access contact book functions
///
/// The contact book is a user local store of metadata, that can be
/// assigned for each `Identity` that a user is aware of on the network.
/// It is what the user keeps about someone, independent of the profile
/// that comes from the remote user themselves.
pub struct Contacts<'chain> {
    pub q: &'chain Qaul,
}

impl<'qaul> Contacts<'qaul> {
    /// Drop this scope and return back to global `Qaul` scope
    pub fn drop(&'qaul self) -> (r: &'qaul Qaul)
        ensures
            r == self.q,
    {
        self.q
    }

    /// Modify a user's contact entry in a user-local contact book
    ///
    /// The changes are a list, made in its order. The core is handed in
    /// apart from a scope, because it is changed.
    pub fn modify(q: &mut Qaul, user: UserAuth, contact: &Identity, changes: Vec<ContactUpdate>) -> (r:
        Result<(), Error>)
        ensures
            contact_modify_post(old(q)@, &user, *contact, changes, r, final(q)@),
    {
        q.contact_modify(&user, *contact, changes)
    }

    /// Get a single `ContactEntry` from a user's contact book
    pub fn get(&self, user: UserAuth, contact: &Identity) -> (r: Result<ContactEntry, Error>)
        ensures
            contact_get_post(self.q@, &user, contact, r, self.q@),
    {
        self.q.contact_get(&user, contact)
    }

    /// Query for a subset of users that have a `ContactEntry`
    pub fn query(&self, user: UserAuth, query: ContactQuery) -> (r: Result<Vec<Identity>, Error>)
        ensures
            contact_query_post(self.q@, &user, &query, r, self.q@),
    {
        self.q.contact_query(&user, &query)
    }

    /// Get all users that have a `ContactEntry` for this user
    pub fn all(&self, user: UserAuth) -> (r: Result<Vec<Identity>, Error>)
        ensures
            contact_all_post(self.q@, &user, r, self.q@),
    {
        self.q.contact_all(&user)
    }
}

/// Returned on successful `Token` grants
///
/// The token is stored in the `id` field
#[derive(PartialEq, Eq, Debug, Clone, Copy, Structural)]
pub struct UserGrant {}

impl UserGrant {
    /// The name of this kind of resource.
    pub fn kind() -> (r: String)
        ensures
            r@ == "user_grant"@,
    {
        "user_grant".to_owned()
    }
}

} // verus!
