//! The requests about messages.

use crate::messages::{Mode, MsgQuery, Service};
use crate::store::library::Subscription;
use crate::tags::TagSet;
use crate::users::UserAuth;
use vstd::prelude::*;

verus! {

/// Send a raw message
#[derive(Debug)]
pub struct Send {
    pub auth: UserAuth,
    pub mode: Mode,
    pub service: String,
    pub tags: TagSet,
    pub payload: Vec<u8>,
}

/// Poll the next raw message of a subscription
#[derive(Debug)]
pub struct Next {
    pub auth: UserAuth,
    pub sub: Subscription,
}

/// Create a subscription for raw messages
#[derive(Debug)]
pub struct Subscribe {
    pub auth: UserAuth,
    pub service: Service,
    pub tags: TagSet,
}

/// Query existing raw messages
#[derive(Debug)]
pub struct Query {
    pub auth: UserAuth,
    pub service: Service,
    pub query: MsgQuery,
}

} // verus!
