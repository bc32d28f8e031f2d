//! The requests about contact books.

use crate::contacts::{ContactQuery, ContactUpdate};
use crate::identity::Identity;
use crate::users::UserAuth;
use vstd::prelude::*;

verus! {

/// Modify a user's contact
#[derive(Debug)]
pub struct Modify {
    pub auth: UserAuth,
    pub contact: Identity,
    pub lambda: Vec<ContactUpdate>,
}

/// Get a user contact
#[derive(Debug)]
pub struct Get {
    pub auth: UserAuth,
    pub contact: Identity,
}

/// Query a user's contacts
#[derive(Debug)]
pub struct Query {
    pub auth: UserAuth,
    pub query: ContactQuery,
}

/// Get all user contacts
#[derive(Debug)]
pub struct All {
    pub auth: UserAuth,
}

} // verus!
