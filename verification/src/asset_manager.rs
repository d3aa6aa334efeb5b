//! The asset manager's interface: vesting balances and release schedules
//! per denomination. The component itself is an external collaborator of
//! the governance core; only the shapes of its messages and state entries
//! are modeled here, so callers and tests can speak its language.

use vstd::prelude::*;

use crate::common::Coin;

verus! {

/// A point after which a locked amount becomes releasable.
#[derive(Clone, Copy, Debug, PartialEq, Eq, Structural)]
pub enum Expiration {
    AtHeight(u64),
    AtTime(u64),
    Never {},
}

/// A denomination's balance: what the contract started with and what is
/// still held.
#[derive(Clone, Copy, Debug, PartialEq, Eq, Structural)]
pub struct BalanceState {
    pub initial_balance: u128,
    pub current_balance: u128,
}

/// One tranche of a release schedule: an amount locked until a point.
#[derive(Clone, Copy, Debug, PartialEq, Eq, Structural)]
pub struct ReleaseSchedule {
    pub locked_until: Expiration,
    pub amount_locked: u128,
}

/// The asset manager's instantiation message.
#[derive(Clone, Debug)]
pub struct InstantiateMsg {
}

/// What the asset manager can be asked to do.
#[derive(Clone, Debug)]
pub enum ExecuteMsg {
    WithdrawAvailableShare { coin: Coin },
}

/// What the asset manager can be asked.
#[derive(Clone, Debug)]
pub enum QueryMsg {
    GetBalanceState {},
    GetReleaseState {},
}

/// One denomination's balance state.
#[derive(Clone, Debug)]
pub struct BalanceStatePerDenom {
    pub denom: String,
    pub balance_state: BalanceState,
}

/// The balance state of every denomination held.
#[derive(Clone, Debug)]
pub struct GetBalanceStateResponse {
    pub balance_state_per_denom: Vec<BalanceStatePerDenom>,
}

/// One denomination's release state: what is already releasable and what
/// is still locked.
#[derive(Clone, Debug)]
pub struct ReleaseStatePerDenom {
    pub denom: String,
    pub released_amount: u128,
    pub not_released_amount: u128,
}

/// The release state of every denomination held.
#[derive(Clone, Debug)]
pub struct GetReleaseStateResponse {
    pub release_state_per_denom: Vec<ReleaseStatePerDenom>,
}

} // verus!
