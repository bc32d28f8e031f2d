//! The record store: tagged records under paths, one namespace for
//! everyone and one for each user.

pub mod library;
pub mod query;
pub mod record;
