//! The requests about users.

use crate::identity::Identity;
use crate::users::{UserAuth, UserUpdate};
use vstd::prelude::*;

verus! {

/// List all available users
#[derive(Debug, Clone, Copy)]
pub struct List {}

/// List locally available users
#[derive(Debug, Clone, Copy)]
pub struct ListLocal {}

/// List remote available users
#[derive(Debug, Clone, Copy)]
pub struct ListRemote {}

/// Create a new user with a passphrase
#[derive(Debug)]
pub struct Create {
    pub pw: String,
}

/// Delete a local user
#[derive(Debug)]
pub struct Delete {
    pub auth: UserAuth,
}

/// Change a user's passphrase
#[derive(Debug)]
pub struct ChangePw {
    pub auth: UserAuth,
    pub new_pw: String,
}

/// Login as a user to get an auth token
#[derive(Debug)]
pub struct Login {
    pub user: Identity,
    pub pw: String,
}

/// End a user session
#[derive(Debug)]
pub struct Logout {
    pub auth: UserAuth,
}

/// Get data on a particular user
#[derive(Debug)]
pub struct Get {
    pub user: Identity,
}

/// Update a user
#[derive(Debug)]
pub struct Update {
    pub auth: UserAuth,
    pub update: UserUpdate,
}

} // verus!
