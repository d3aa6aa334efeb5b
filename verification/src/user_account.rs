//! The boss principal account ("user account"): a thin forwarder around
//! the host's staking and governance capabilities. It checks that its
//! owner (the boss) or the assembly is calling, decides which staking or
//! vote instruction follows, and hands that instruction back for the host
//! to dispatch. Host-side facts it cannot know — whether an address is
//! syntactically valid, what is currently delegated — arrive as arguments.

use vstd::prelude::*;

use crate::common::{Coin, ExecuteMsg as CommonExecuteMsg, WasmInstruction};

verus! {

/// Everything a boss-account operation can fail with.
#[derive(Clone, Copy, Debug, PartialEq, Eq, Structural)]
pub enum ContractError {
    Unauthorized,
    WrongToken,
    InvalidAddr,
    NoDelegation,
    UndelegateAmountTooHigh,
    InvalidVote,
}

/// One existing delegation to a validator, as the host reports it.
#[derive(Clone, Debug)]
pub struct Delegation {
    pub validator: String,
    pub amount: Coin,
}

/// A staking instruction for the host to dispatch.
#[derive(Clone, Debug)]
pub enum StakingInstruction {
    Delegate { validator: String, amount: Coin },
    Undelegate { validator: String, amount: Coin },
    Redelegate { src_validator: String, dst_validator: String, amount: Coin },
}

/// A rewards instruction for the host to dispatch.
#[derive(Clone, Debug)]
pub enum DistributionInstruction {
    WithdrawDelegatorReward { validator: String },
}

/// The governance vote enumeration the numeric options 1 to 4 map to.
#[derive(Clone, Copy, Debug, PartialEq, Eq, Structural)]
pub enum VoteOption {
    Yes,
    No,
    Abstain,
    NoWithVeto,
}

/// A governance-vote instruction for the host to dispatch.
#[derive(Clone, Debug)]
pub enum GovInstruction {
    Vote { proposal_id: u64, vote: VoteOption },
}

/// The boss account's state: who owns it, which assembly may instruct it,
/// and where its vote power was last sent.
#[derive(Clone, Debug)]
pub struct UserAccountState {
    pub boss_addr: String,
    pub assembly_addr: String,
    pub dear_leader_addr: Option<String>,
}

/// The funds attached to a call pay exactly one positive amount of the
/// native denomination.
pub open spec fn payment_ok(funds: Seq<Coin>, native_denom: Seq<char>) -> bool {
    funds.len() == 1 && funds[0].denom@ == native_denom && funds[0].amount > 0
}

/// The numeric vote options 1 to 4, as governance vote choices.
pub open spec fn vote_option_of(vote: u64) -> VoteOption
    recommends
        1 <= vote <= 4,
{
    if vote == 1 {
        VoteOption::Yes
    } else if vote == 2 {
        VoteOption::No
    } else if vote == 3 {
        VoteOption::Abstain
    } else {
        VoteOption::NoWithVeto
    }
}

impl UserAccountState {
    /// A fresh boss account, not delegating its vote power to anyone.
    pub fn new(boss_addr: String, assembly_addr: String) -> (r: UserAccountState)
        ensures
            r.boss_addr@ == boss_addr@,
            r.assembly_addr@ == assembly_addr@,
            r.dear_leader_addr is None,
    {
        UserAccountState { boss_addr, assembly_addr, dear_leader_addr: Option::None }
    }

    /// Accepts the call only when the boss itself is calling.
    pub fn validate_boss(&self, sender: &String) -> (r: Result<(), ContractError>)
        ensures
            r == if sender@ == self.boss_addr@ {
                Ok::<(), ContractError>(())
            } else {
                Err::<(), ContractError>(ContractError::Unauthorized)
            },
    {
        if crate::common::authorized(&self.boss_addr, sender) {
            Ok(())
        } else {
            Err(ContractError::Unauthorized)
        }
    }

    /// Accepts the call only when the trusted assembly is calling.
    pub fn validate_assembly_call(&self, sender: &String) -> (r: Result<(), ContractError>)
        ensures
            r == if sender@ == self.assembly_addr@ {
                Ok::<(), ContractError>(())
            } else {
                Err::<(), ContractError>(ContractError::Unauthorized)
            },
    {
        if crate::common::authorized(&self.assembly_addr, sender) {
            Ok(())
        } else {
            Err(ContractError::Unauthorized)
        }
    }

    /// Stakes the attached funds with a validator. The boss must call,
    /// the funds must be exactly one positive amount of the native
    /// denomination, and the validator address must have passed the
    /// host's validation.
    pub fn delegate(
        &self,
        sender: &String,
        funds: &Vec<Coin>,
        native_denom: &String,
        validator_addr: &String,
        validator_addr_is_valid: bool,
    ) -> (r: Result<StakingInstruction, ContractError>)
        ensures
            sender@ != self.boss_addr@ ==> r == Err::<StakingInstruction, _>(
                ContractError::Unauthorized,
            ),
            sender@ == self.boss_addr@ && !payment_ok(funds@, native_denom@) ==> r == Err::<
                StakingInstruction,
                _,
            >(ContractError::WrongToken),
            sender@ == self.boss_addr@ && payment_ok(funds@, native_denom@)
                && !validator_addr_is_valid ==> r == Err::<StakingInstruction, _>(
                ContractError::InvalidAddr,
            ),
            sender@ == self.boss_addr@ && payment_ok(funds@, native_denom@)
                && validator_addr_is_valid ==> (r matches Ok(
                StakingInstruction::Delegate { validator, amount },
            ) && validator@ == validator_addr@ && amount.denom@ == funds@[0].denom@ && amount.amount
                == funds@[0].amount),
    {
        self.validate_boss(sender)?;
        if !(funds.len() == 1 && funds[0].denom == *native_denom && funds[0].amount > 0) {
            return Err(ContractError::WrongToken);
        }
        if !validator_addr_is_valid {
            return Err(ContractError::InvalidAddr);
        }
        Ok(
            StakingInstruction::Delegate {
                validator: validator_addr.clone(),
                amount: Coin { denom: funds[0].denom.clone(), amount: funds[0].amount },
            },
        )
    }

    /// Unstakes from a validator. The requested amount must sit strictly
    /// below the existing delegation; the instruction then undelegates
    /// the delegation's full recorded amount. `delegation` is what the
    /// host reports as currently delegated to that validator.
    pub fn undelegate(
        &self,
        sender: &String,
        validator_addr_is_valid: bool,
        delegation: &Option<Delegation>,
        amount: u128,
    ) -> (r: Result<StakingInstruction, ContractError>)
        ensures
            sender@ != self.boss_addr@ ==> r == Err::<StakingInstruction, _>(
                ContractError::Unauthorized,
            ),
            sender@ == self.boss_addr@ && !validator_addr_is_valid ==> r == Err::<
                StakingInstruction,
                _,
            >(ContractError::InvalidAddr),
            sender@ == self.boss_addr@ && validator_addr_is_valid && delegation is None ==> r
                == Err::<StakingInstruction, _>(ContractError::NoDelegation),
            sender@ == self.boss_addr@ && validator_addr_is_valid && (delegation matches Some(d)
                && amount >= d.amount.amount) ==> r == Err::<StakingInstruction, _>(
                ContractError::UndelegateAmountTooHigh,
            ),
            sender@ == self.boss_addr@ && validator_addr_is_valid && (delegation matches Some(d)
                && amount < d.amount.amount) ==> (r matches Ok(
                StakingInstruction::Undelegate { validator, amount: a },
            ) && (delegation matches Some(d) && validator@ == d.validator@ && a.denom@
                == d.amount.denom@ && a.amount == d.amount.amount)),
    {
        self.validate_boss(sender)?;
        if !validator_addr_is_valid {
            return Err(ContractError::InvalidAddr);
        }
        let d = match delegation {
            Option::Some(d) => d,
            Option::None => {
                return Err(ContractError::NoDelegation);
            },
        };
        if amount >= d.amount.amount {
            return Err(ContractError::UndelegateAmountTooHigh);
        }
        Ok(
            StakingInstruction::Undelegate {
                validator: d.validator.clone(),
                amount: Coin { denom: d.amount.denom.clone(), amount: d.amount.amount },
            },
        )
    }

    /// Unstakes everything: one undelegate instruction per delegation the
    /// host reports, in order.
    pub fn undelegate_all(&self, sender: &String, delegations: &Vec<Delegation>) -> (r: Result<
        Vec<StakingInstruction>,
        ContractError,
    >)
        ensures
            sender@ != self.boss_addr@ ==> r == Err::<Vec<StakingInstruction>, _>(
                ContractError::Unauthorized,
            ),
            sender@ == self.boss_addr@ ==> (r matches Ok(msgs) && msgs@.len()
                == delegations@.len() && forall|i: int|
                0 <= i < msgs@.len() ==> ((#[trigger] msgs@[i]) matches
                    StakingInstruction::Undelegate { validator, amount } && validator@
                    == delegations@[i].validator@ && amount.denom@ == delegations@[i].amount.denom@
                    && amount.amount == delegations@[i].amount.amount)),
    {
        self.validate_boss(sender)?;
        let mut msgs: Vec<StakingInstruction> = Vec::new();
        let n = delegations.len();
        let mut i: usize = 0;
        while i < n
            invariant
                n == delegations@.len(),
                i <= n,
                msgs@.len() == i,
                forall|q: int|
                    0 <= q < i ==> ((#[trigger] msgs@[q]) matches
                        StakingInstruction::Undelegate { validator, amount } && validator@
                        == delegations@[q].validator@ && amount.denom@
                        == delegations@[q].amount.denom@ && amount.amount
                        == delegations@[q].amount.amount),
            decreases n - i,
        {
            msgs.push(
                StakingInstruction::Undelegate {
                    validator: delegations[i].validator.clone(),
                    amount: Coin {
                        denom: delegations[i].amount.denom.clone(),
                        amount: delegations[i].amount.amount,
                    },
                },
            );
            i += 1;
        }
        Ok(msgs)
    }

    /// Claims staking rewards: one withdraw instruction per delegation
    /// the host reports, in order.
    pub fn claim(&self, sender: &String, delegations: &Vec<Delegation>) -> (r: Result<
        Vec<DistributionInstruction>,
        ContractError,
    >)
        ensures
            sender@ != self.boss_addr@ ==> r == Err::<Vec<DistributionInstruction>, _>(
                ContractError::Unauthorized,
            ),
            sender@ == self.boss_addr@ ==> (r matches Ok(msgs) && msgs@.len()
                == delegations@.len() && forall|i: int|
                0 <= i < msgs@.len() ==> ((#[trigger] msgs@[i]) matches
                    DistributionInstruction::WithdrawDelegatorReward { validator } && validator@
                    == delegations@[i].validator@)),
    {
        self.validate_boss(sender)?;
        let mut msgs: Vec<DistributionInstruction> = Vec::new();
        let n = delegations.len();
        let mut i: usize = 0;
        while i < n
            invariant
                n == delegations@.len(),
                i <= n,
                msgs@.len() == i,
                forall|q: int|
                    0 <= q < i ==> ((#[trigger] msgs@[q]) matches
                        DistributionInstruction::WithdrawDelegatorReward { validator } && validator@
                        == delegations@[q].validator@),
            decreases n - i,
        {
            msgs.push(
                DistributionInstruction::WithdrawDelegatorReward {
                    validator: delegations[i].validator.clone(),
                },
            );
            i += 1;
        }
        Ok(msgs)
    }

    /// Moves a stake from one validator to another. The requested amount
    /// must sit strictly below what the host reports as delegated to the
    /// source validator; the instruction then moves the delegation's full
    /// recorded amount.
    pub fn redelegate(
        &self,
        sender: &String,
        from_validator_addr: &String,
        to_validator_addr: &String,
        from_addr_is_valid: bool,
        to_addr_is_valid: bool,
        delegation: &Option<Delegation>,
        amount: u128,
    ) -> (r: Result<StakingInstruction, ContractError>)
        ensures
            sender@ != self.boss_addr@ ==> r == Err::<StakingInstruction, _>(
                ContractError::Unauthorized,
            ),
            sender@ == self.boss_addr@ && !(from_addr_is_valid && to_addr_is_valid) ==> r == Err::<
                StakingInstruction,
                _,
            >(ContractError::InvalidAddr),
            sender@ == self.boss_addr@ && from_addr_is_valid && to_addr_is_valid && delegation
                is None ==> r == Err::<StakingInstruction, _>(ContractError::NoDelegation),
            sender@ == self.boss_addr@ && from_addr_is_valid && to_addr_is_valid && (delegation
                matches Some(d) && amount >= d.amount.amount) ==> r == Err::<
                StakingInstruction,
                _,
            >(ContractError::UndelegateAmountTooHigh),
            sender@ == self.boss_addr@ && from_addr_is_valid && to_addr_is_valid && (delegation
                matches Some(d) && amount < d.amount.amount) ==> (r matches Ok(
                StakingInstruction::Redelegate { src_validator, dst_validator, amount: a },
            ) && (delegation matches Some(d) && src_validator@ == from_validator_addr@
                && dst_validator@ == to_validator_addr@ && a.denom@ == d.amount.denom@ && a.amount
                == d.amount.amount)),
    {
        self.validate_boss(sender)?;
        if !from_addr_is_valid || !to_addr_is_valid {
            return Err(ContractError::InvalidAddr);
        }
        let d = match delegation {
            Option::Some(d) => d,
            Option::None => {
                return Err(ContractError::NoDelegation);
            },
        };
        if amount >= d.amount.amount {
            return Err(ContractError::UndelegateAmountTooHigh);
        }
        Ok(
            StakingInstruction::Redelegate {
                src_validator: from_validator_addr.clone(),
                dst_validator: to_validator_addr.clone(),
                amount: Coin { denom: d.amount.denom.clone(), amount: d.amount.amount },
            },
        )
    }

    /// Hands the boss's vote power to a dear leader: remembers the target
    /// locally and emits the `TransferVotePower` instruction for the
    /// assembly, which keeps the authoritative delegation registry.
    pub fn transfer_vote_power(
        &mut self,
        sender: &String,
        dear_leader_addr: &String,
        dear_leader_addr_is_valid: bool,
    ) -> (r: Result<WasmInstruction, ContractError>)
        ensures
            sender@ != old(self).boss_addr@ ==> r == Err::<WasmInstruction, _>(
                ContractError::Unauthorized,
            ) && *final(self) == *old(self),
            sender@ == old(self).boss_addr@ && !dear_leader_addr_is_valid ==> r == Err::<
                WasmInstruction,
                _,
            >(ContractError::InvalidAddr) && *final(self) == *old(self),
            sender@ == old(self).boss_addr@ && dear_leader_addr_is_valid ==> {
                &&& r matches Ok(m) && m.contract_addr@ == old(self).assembly_addr@ && (m.msg
                    matches CommonExecuteMsg::TransferVotePower { dear_leader_addr: t } && t@
                    == dear_leader_addr@)
                &&& final(self).dear_leader_addr matches Some(t) && t@ == dear_leader_addr@
                &&& final(self).boss_addr == old(self).boss_addr
                &&& final(self).assembly_addr == old(self).assembly_addr
            },
    {
        self.validate_boss(sender)?;
        if !dear_leader_addr_is_valid {
            return Err(ContractError::InvalidAddr);
        }
        self.dear_leader_addr = Option::Some(dear_leader_addr.clone());
        Ok(
            WasmInstruction {
                contract_addr: self.assembly_addr.clone(),
                msg: CommonExecuteMsg::TransferVotePower {
                    dear_leader_addr: dear_leader_addr.clone(),
                },
            },
        )
    }

    /// Casts the vote the assembly instructs: only the trusted assembly
    /// may call, and the numeric option must translate to a governance
    /// vote choice.
    pub fn assembly_vote(&self, sender: &String, proposal_id: u64, vote: u64) -> (r: Result<
        GovInstruction,
        ContractError,
    >)
        ensures
            sender@ != self.assembly_addr@ ==> r == Err::<GovInstruction, _>(
                ContractError::Unauthorized,
            ),
            sender@ == self.assembly_addr@ && (vote < 1 || vote > 4) ==> r == Err::<
                GovInstruction,
                _,
            >(ContractError::InvalidVote),
            sender@ == self.assembly_addr@ && 1 <= vote <= 4 ==> r == Ok::<_, ContractError>(
                GovInstruction::Vote { proposal_id, vote: vote_option_of(vote) },
            ),
    {
        self.validate_assembly_call(sender)?;
        let vote_option = match vote {
            1u64 => VoteOption::Yes,
            2u64 => VoteOption::No,
            3u64 => VoteOption::Abstain,
            4u64 => VoteOption::NoWithVeto,
            _ => {
                return Err(ContractError::InvalidVote);
            },
        };
        Ok(GovInstruction::Vote { proposal_id, vote: vote_option })
    }
}

} // verus!
