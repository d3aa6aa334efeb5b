//! The dear-leader principal account: an aggregation account whose owner
//! may trigger a vote on behalf of every boss delegating to it. The
//! account itself only checks that its owner is calling and forwards the
//! vote to the assembly, which owns the delegator sets and does the
//! fan-out.

use vstd::prelude::*;

use crate::common::{ExecuteMsg as CommonExecuteMsg, WasmInstruction};

verus! {

/// Everything a dear-leader-account operation can fail with.
#[derive(Clone, Copy, Debug, PartialEq, Eq, Structural)]
pub enum ContractError {
    Unauthorized,
}

/// The account's configuration: the external identity allowed to act for
/// it, set at creation.
#[derive(Clone, Debug)]
pub struct Config {
    pub owner: String,
}

/// The dear-leader account's instantiation message.
#[derive(Clone, Debug)]
pub struct InstantiateMsg {
    pub assembly_addr: String,
}

/// What the dear-leader account can be asked to do.
#[derive(Clone, Debug)]
pub enum ExecuteMsg {
    Vote { proposal_id: u64, vote_option: u64 },
}

/// The dear-leader account's state.
#[derive(Clone, Debug)]
pub struct DearLeaderAccountState {
    pub config: Config,
    pub assembly_addr: String,
}

impl DearLeaderAccountState {
    /// A fresh dear-leader account owned by whoever instantiated it.
    pub fn new(owner: String, assembly_addr: String) -> (r: DearLeaderAccountState)
        ensures
            r.config.owner@ == owner@,
            r.assembly_addr@ == assembly_addr@,
    {
        DearLeaderAccountState { config: Config { owner }, assembly_addr }
    }

    /// Accepts the call only when the account's owner is calling.
    pub fn validate_owner(&self, sender: &String) -> (r: Result<(), ContractError>)
        ensures
            r == if sender@ == self.config.owner@ {
                Ok::<(), ContractError>(())
            } else {
                Err::<(), ContractError>(ContractError::Unauthorized)
            },
    {
        if crate::common::authorized(&self.config.owner, sender) {
            Ok(())
        } else {
            Err(ContractError::Unauthorized)
        }
    }

    /// What [`DearLeaderAccountState::vote`] promises.
    pub open spec fn vote_post(
        self,
        sender: Seq<char>,
        proposal_id: u64,
        vote_option: u64,
        r: Result<WasmInstruction, ContractError>,
    ) -> bool {
        &&& (sender != self.config.owner@ ==> r == Err::<WasmInstruction, _>(
            ContractError::Unauthorized,
        ))
        &&& (sender == self.config.owner@ ==> (r matches Ok(m) && m.contract_addr@
            == self.assembly_addr@ && (m.msg matches CommonExecuteMsg::DearLeaderVote {
            proposal_id: p,
            vote_option: v,
        } && p == proposal_id && v == vote_option)))
    }

    /// Forwards the owner's vote to the assembly, which fans it out to
    /// the delegators. The vote option is passed through untouched; the
    /// assembly validates it.
    pub fn vote(&self, sender: &String, proposal_id: u64, vote_option: u64) -> (r: Result<
        WasmInstruction,
        ContractError,
    >)
        ensures
            self.vote_post(sender@, proposal_id, vote_option, r),
    {
        self.validate_owner(sender)?;
        Ok(
            WasmInstruction {
                contract_addr: self.assembly_addr.clone(),
                msg: CommonExecuteMsg::DearLeaderVote { proposal_id, vote_option },
            },
        )
    }

    /// Dispatches one inbound message to the operation it names.
    pub fn execute(&self, sender: &String, msg: &ExecuteMsg) -> (r: Result<
        WasmInstruction,
        ContractError,
    >)
        ensures
            match msg {
                ExecuteMsg::Vote { proposal_id, vote_option } => self.vote_post(
                    sender@,
                    *proposal_id,
                    *vote_option,
                    r,
                ),
            },
    {
        match msg {
            ExecuteMsg::Vote { proposal_id, vote_option } => self.vote(
                sender,
                *proposal_id,
                *vote_option,
            ),
        }
    }
}

} // verus!
