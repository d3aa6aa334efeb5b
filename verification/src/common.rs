//! Types shared by every component: coins, the cross-component execute
//! messages that one contract sends to another, and the capability check
//! that verifies a caller against a trusted stored address.

use vstd::prelude::*;

verus! {

/// An amount of a single native denomination.
#[derive(Clone, Debug)]
pub struct Coin {
    pub denom: String,
    pub amount: u128,
}

/// The messages that the components of this system send to one another
/// through the host environment. Each ends up as the payload of a
/// [`WasmInstruction`].
#[derive(Clone, Debug)]
pub enum ExecuteMsg {
    /// Assembly -> principal account: cast this vote on-chain.
    AssemblyVote { proposal_id: u64, vote_option: u64 },
    /// Dear-leader account -> assembly: fan my vote out to my delegators.
    DearLeaderVote { proposal_id: u64, vote_option: u64 },
    /// Boss account -> assembly: delegate my vote power.
    TransferVotePower { dear_leader_addr: String },
    /// Factory -> assembly: a freshly provisioned dear-leader account asks
    /// to join the board.
    RegisterWannaBe { wanna_be_addr: String },
}

/// One instruction to execute a message on another contract, dispatched by
/// the host after the emitting invocation commits.
#[derive(Clone, Debug)]
pub struct WasmInstruction {
    pub contract_addr: String,
    pub msg: ExecuteMsg,
}

impl WasmInstruction {
    /// The instruction tells `target` to cast `vote_option` on `proposal_id`.
    pub open spec fn is_assembly_vote(self, target: Seq<char>, proposal_id: u64, vote_option: u64) -> bool {
        &&& self.contract_addr@ == target
        &&& self.msg matches ExecuteMsg::AssemblyVote { proposal_id: p, vote_option: v }
            && p == proposal_id && v == vote_option
    }
}

/// Whether some element of the address list reads as `x`.
pub open spec fn list_has(s: Seq<String>, x: Seq<char>) -> bool {
    exists|i: int| 0 <= i < s.len() && (#[trigger] s[i])@ == x
}

/// The position `x` occupies in the list, when it is listed.
pub open spec fn list_at(s: Seq<String>, x: Seq<char>) -> int {
    choose|i: int| 0 <= i < s.len() && (#[trigger] s[i])@ == x
}

/// The views of the list's elements, in order.
pub open spec fn views_of(s: Seq<String>) -> Seq<Seq<char>> {
    s.map_values(|x: String| x@)
}

/// No two elements of the list read as the same address.
pub open spec fn distinct_views(s: Seq<String>) -> bool {
    forall|i: int, j: int| 0 <= i < j < s.len() ==> (#[trigger] s[i])@ != (#[trigger] s[j])@
}

/// Whether a caller is the trusted principal stored for a role: the one
/// capability check, applied uniformly by every component.
pub fn authorized(trusted_addr: &String, caller: &String) -> (r: bool)
    ensures
        r == (trusted_addr@ == caller@),
{
    *trusted_addr == *caller
}

} // verus!
