//! A liquid-democracy governance core: an assembly that tracks which boss
//! account delegates its vote to which dear-leader account, records who has
//! voted on each proposal, and fans a dear leader's vote out to its
//! delegators; an accounts factory that provisions new principal accounts
//! through an asynchronous receipt; and the account-side forwarders that
//! turn authorized instructions into governance votes.
//!
//! Every operation is a pure state transition: it takes the component's
//! state and the caller's address, and returns the instructions that the
//! host environment should dispatch. Persistence, serialization and message
//! dispatch live outside this crate.

pub mod asset_manager;
pub mod assembly;
pub mod common;
pub mod dear_leader_account;
pub mod factory;
pub mod user_account;
