//! Core of a cross-chain program router: an asset registry, an
//! authorization layer gating privileged operations, a fund-transfer
//! planner, a lazily provisioned per-origin interpreter directory, and
//! a packet-forward-memo builder with its wire codec.
//!
//! The persistent state of the router is an explicit [`state::Gateway`]
//! value, and every handler returns the deferred actions it wants the
//! host to run as an explicit list inside a [`response::Response`].

pub mod accounts;
pub mod assets;
pub mod auth;
pub mod codec;
pub mod error;
pub mod events;
pub mod execute;
pub mod msg;
pub mod network;
pub mod origin;
pub mod pfm;
pub mod response;
pub mod state;
pub mod table;
pub mod transfer;
pub mod types;
