//! Core of a peer-to-peer overlay messaging stack, each part with a
//! machine-checked contract.
//!
//! - `tags`, `tagcodec`: tags, tag sets and their two framings
//! - `store`: the record store with batches, queries, locks and
//!   subscriptions
//! - `messages`, `helpers`: messages as records, and result sets
//! - `peers`, `endpoint`, `wire`, `peerfile`, `router`: the TCP link: peer
//!   table, what is sent where, packets, the peer list file, routes
//! - `users`, `contacts`, `qaul`, `api`: the core state and its scopes
//! - `rpc`, `jsonapi`: requests, responses and the words for refusals
//! - `identity`, `error`, `hexcode`, `text`, `order`, `assoc`, `idmap`:
//!   what the others are built from
//!
//! Nothing here reads a socket, a file or a clock: the library decides,
//! and its callers do.

pub mod api;
pub mod assoc;
pub mod contacts;
pub mod endpoint;
pub mod error;
pub mod helpers;
pub mod hexcode;
pub mod identity;
pub mod idmap;
pub mod jsonapi;
pub mod messages;
pub mod order;
pub mod peerfile;
pub mod peers;
pub mod qaul;
pub mod router;
pub mod rpc;
pub mod store;
pub mod tagcodec;
pub mod tags;
pub mod text;
pub mod users;
pub mod wire;
