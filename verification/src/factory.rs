//! The accounts factory: provisions new boss and dear-leader principal
//! accounts on demand, in two phases. A creation request checks that the
//! caller does not already own an account of that role and emits an
//! asynchronous provisioning request tagged with a small continuation id;
//! nothing is recorded yet. When the host later delivers the provisioning
//! receipt with the new account's address, [`FactoryState::reply`]
//! correlates the receipt back through the continuation id, appends the
//! address to the matching management list and, for a dear leader, emits
//! the instruction that registers the new account with the assembly.

use vstd::prelude::*;

use crate::common::{list_has, views_of};
use crate::common::{ExecuteMsg as CommonExecuteMsg, WasmInstruction};

verus! {

/// Continuation tag for a pending boss-account provisioning.
pub const USER_ACCOUNT_REPLY_ID: u64 = 0;

/// Continuation tag for a pending dear-leader-account provisioning.
pub const DEAR_LEADER_ACCOUNT_REPLY_ID: u64 = 1;

/// Everything a factory operation can fail with.
#[derive(Clone, Copy, Debug, PartialEq, Eq, Structural)]
pub enum ContractError {
    Unauthorized,
    UserAccountAlreadyExists,
    DearLeaderAccountAlreadyExists,
    /// A provisioning receipt carried a continuation tag that matches no
    /// pending kind of account: a protocol-integrity defect, not a user
    /// error.
    UnknownReplyIdCommon,
}

/// The factory's instantiation message.
#[derive(Clone, Debug)]
pub struct InstantiateMsg {
    pub user_accounts_code_id: u64,
    pub dear_leader_accounts_code_id: u64,
    pub assembly_addr: String,
}

/// What the factory can be asked to do.
#[derive(Clone, Debug)]
pub enum ExecuteMsg {
    CreateUserAccount {},
    CreateDearLeaderAccount {},
}

/// The factory's one query.
#[derive(Clone, Debug)]
pub enum QueryMsg {
    GetAllContractsUnderManagement {},
}

/// Both management lists, flattened: boss accounts first, then
/// dear-leader accounts.
#[derive(Clone, Debug)]
pub struct GetAllContractsUnderManagementResponse {
    pub contract_addrs: Vec<String>,
}

/// An asynchronous request to provision one new principal account: the
/// host instantiates code `code_id` under admin `admin` and calls back
/// with the continuation tag `reply_id` once the address is assigned.
#[derive(Clone, Debug)]
pub struct ProvisionRequest {
    pub reply_id: u64,
    pub code_id: u64,
    pub admin: String,
    pub label: String,
}

/// The factory's whole state.
#[derive(Clone, Debug)]
pub struct FactoryState {
    pub user_accounts_under_management: Vec<String>,
    pub dear_leader_accounts_under_management: Vec<String>,
    pub user_accounts_code_id: u64,
    pub dear_leader_accounts_code_id: u64,
    pub assembly_addr: String,
}

impl FactoryState {
    /// A fresh factory managing no accounts yet.
    pub fn new(
        user_accounts_code_id: u64,
        dear_leader_accounts_code_id: u64,
        assembly_addr: String,
    ) -> (r: FactoryState)
        ensures
            r.user_accounts_under_management@.len() == 0,
            r.dear_leader_accounts_under_management@.len() == 0,
            r.user_accounts_code_id == user_accounts_code_id,
            r.dear_leader_accounts_code_id == dear_leader_accounts_code_id,
            r.assembly_addr@ == assembly_addr@,
    {
        FactoryState {
            user_accounts_under_management: Vec::new(),
            dear_leader_accounts_under_management: Vec::new(),
            user_accounts_code_id,
            dear_leader_accounts_code_id,
            assembly_addr,
        }
    }

    /// What [`FactoryState::create_user_account`] promises.
    pub open spec fn create_user_account_post(
        self,
        factory_addr: Seq<char>,
        sender: Seq<char>,
        r: Result<ProvisionRequest, ContractError>,
    ) -> bool {
        &&& (list_has(self.user_accounts_under_management@, sender) ==> r == Err::<
            ProvisionRequest,
            _,
        >(ContractError::UserAccountAlreadyExists))
        &&& (!list_has(self.user_accounts_under_management@, sender) ==> (r matches Ok(req) && {
            &&& req.reply_id == USER_ACCOUNT_REPLY_ID
            &&& req.code_id == self.user_accounts_code_id
            &&& req.admin@ == factory_addr
            &&& req.label@ == sender + "_user_account"@
        }))
    }

    /// Requests a new boss account for the caller. Nothing is recorded
    /// until the provisioning receipt arrives; the request fails only if
    /// the caller already owns a boss account. `factory_addr` is the
    /// factory's own address, which becomes the new account's admin.
    pub fn create_user_account(&self, factory_addr: &String, sender: &String) -> (r: Result<
        ProvisionRequest,
        ContractError,
    >)
        ensures
            self.create_user_account_post(factory_addr@, sender@, r),
    {
        if list_contains_addr(&self.user_accounts_under_management, sender) {
            return Err(ContractError::UserAccountAlreadyExists);
        }
        Ok(
            ProvisionRequest {
                reply_id: USER_ACCOUNT_REPLY_ID,
                code_id: self.user_accounts_code_id,
                admin: factory_addr.clone(),
                label: sender.clone().concat("_user_account"),
            },
        )
    }

    /// What [`FactoryState::create_dear_leader_account`] promises.
    pub open spec fn create_dear_leader_account_post(
        self,
        factory_addr: Seq<char>,
        sender: Seq<char>,
        r: Result<ProvisionRequest, ContractError>,
    ) -> bool {
        &&& (list_has(self.dear_leader_accounts_under_management@, sender) ==> r == Err::<
            ProvisionRequest,
            _,
        >(ContractError::DearLeaderAccountAlreadyExists))
        &&& (!list_has(self.dear_leader_accounts_under_management@, sender) ==> (r matches Ok(req)
            && {
            &&& req.reply_id == DEAR_LEADER_ACCOUNT_REPLY_ID
            &&& req.code_id == self.dear_leader_accounts_code_id
            &&& req.admin@ == factory_addr
            &&& req.label@ == sender + "_dear_leader_account"@
        }))
    }

    /// Requests a new dear-leader account for the caller, like
    /// [`FactoryState::create_user_account`] but against the dear-leader
    /// management list and continuation tag.
    pub fn create_dear_leader_account(&self, factory_addr: &String, sender: &String) -> (r: Result<
        ProvisionRequest,
        ContractError,
    >)
        ensures
            self.create_dear_leader_account_post(factory_addr@, sender@, r),
    {
        if list_contains_addr(&self.dear_leader_accounts_under_management, sender) {
            return Err(ContractError::DearLeaderAccountAlreadyExists);
        }
        Ok(
            ProvisionRequest {
                reply_id: DEAR_LEADER_ACCOUNT_REPLY_ID,
                code_id: self.dear_leader_accounts_code_id,
                admin: factory_addr.clone(),
                label: sender.clone().concat("_dear_leader_account"),
            },
        )
    }

    /// Dispatches one inbound message to the operation it names.
    pub fn execute(&self, factory_addr: &String, sender: &String, msg: &ExecuteMsg) -> (r: Result<
        ProvisionRequest,
        ContractError,
    >)
        ensures
            match msg {
                ExecuteMsg::CreateUserAccount {  } => self.create_user_account_post(
                    factory_addr@,
                    sender@,
                    r,
                ),
                ExecuteMsg::CreateDearLeaderAccount {  } => self.create_dear_leader_account_post(
                    factory_addr@,
                    sender@,
                    r,
                ),
            },
    {
        match msg {
            ExecuteMsg::CreateUserAccount {  } => self.create_user_account(factory_addr, sender),
            ExecuteMsg::CreateDearLeaderAccount {  } => self.create_dear_leader_account(
                factory_addr,
                sender,
            ),
        }
    }

    /// Appends a freshly provisioned boss account to the management list.
    /// Receipts are appended as they arrive, without deduplication: the
    /// request phase is what prevents duplicate accounts per owner.
    pub fn instantiate_user_account_reply(&mut self, user_account_addr: String)
        ensures
            final(self).user_accounts_under_management@ == old(
                self,
            ).user_accounts_under_management@.push(user_account_addr),
            final(self).dear_leader_accounts_under_management == old(
                self,
            ).dear_leader_accounts_under_management,
            final(self).user_accounts_code_id == old(self).user_accounts_code_id,
            final(self).dear_leader_accounts_code_id == old(self).dear_leader_accounts_code_id,
            final(self).assembly_addr == old(self).assembly_addr,
    {
        self.user_accounts_under_management.push(user_account_addr);
    }

    /// Appends a freshly provisioned dear-leader account to the management
    /// list and returns the instruction that registers it with the
    /// assembly, which independently verifies that the call comes from
    /// this factory.
    pub fn instantiate_dear_leader_account_reply(&mut self, dear_leader_account_addr: String) -> (r:
        WasmInstruction)
        ensures
            final(self).dear_leader_accounts_under_management@ == old(
                self,
            ).dear_leader_accounts_under_management@.push(dear_leader_account_addr),
            final(self).user_accounts_under_management == old(self).user_accounts_under_management,
            final(self).user_accounts_code_id == old(self).user_accounts_code_id,
            final(self).dear_leader_accounts_code_id == old(self).dear_leader_accounts_code_id,
            final(self).assembly_addr == old(self).assembly_addr,
            r.contract_addr@ == old(self).assembly_addr@,
            r.msg matches CommonExecuteMsg::RegisterWannaBe { wanna_be_addr } && wanna_be_addr@
                == dear_leader_account_addr@,
    {
        let instruction = WasmInstruction {
            contract_addr: self.assembly_addr.clone(),
            msg: CommonExecuteMsg::RegisterWannaBe {
                wanna_be_addr: dear_leader_account_addr.clone(),
            },
        };
        self.dear_leader_accounts_under_management.push(dear_leader_account_addr);
        instruction
    }

    /// Correlates a provisioning receipt back to the pending registration
    /// through its continuation tag. An unknown tag is a
    /// protocol-integrity error and records nothing.
    pub fn reply(&mut self, msg_id: u64, created_addr: String) -> (r: Result<
        Option<WasmInstruction>,
        ContractError,
    >)
        ensures
            msg_id == USER_ACCOUNT_REPLY_ID ==> {
                &&& r == Ok::<_, ContractError>(Option::None::<WasmInstruction>)
                &&& final(self).user_accounts_under_management@ == old(
                    self,
                ).user_accounts_under_management@.push(created_addr)
                &&& final(self).dear_leader_accounts_under_management == old(
                    self,
                ).dear_leader_accounts_under_management
            },
            msg_id == DEAR_LEADER_ACCOUNT_REPLY_ID ==> {
                &&& r matches Ok(Option::Some(m)) && m.contract_addr@ == old(self).assembly_addr@
                    && (m.msg matches CommonExecuteMsg::RegisterWannaBe { wanna_be_addr }
                    && wanna_be_addr@ == created_addr@)
                &&& final(self).dear_leader_accounts_under_management@ == old(
                    self,
                ).dear_leader_accounts_under_management@.push(created_addr)
                &&& final(self).user_accounts_under_management == old(
                    self,
                ).user_accounts_under_management
            },
            msg_id != USER_ACCOUNT_REPLY_ID && msg_id != DEAR_LEADER_ACCOUNT_REPLY_ID ==> r
                == Err::<Option<WasmInstruction>, _>(ContractError::UnknownReplyIdCommon)
                && *final(self) == *old(self),
            final(self).user_accounts_code_id == old(self).user_accounts_code_id,
            final(self).dear_leader_accounts_code_id == old(self).dear_leader_accounts_code_id,
            final(self).assembly_addr == old(self).assembly_addr,
    {
        if msg_id == USER_ACCOUNT_REPLY_ID {
            self.instantiate_user_account_reply(created_addr);
            Ok(Option::None)
        } else if msg_id == DEAR_LEADER_ACCOUNT_REPLY_ID {
            let instruction = self.instantiate_dear_leader_account_reply(created_addr);
            Ok(Option::Some(instruction))
        } else {
            Err(ContractError::UnknownReplyIdCommon)
        }
    }

    /// Both management lists as one response: boss accounts first, then
    /// dear-leader accounts, each in arrival order.
    pub fn get_all_contracts_under_management(&self) -> (r: GetAllContractsUnderManagementResponse)
        ensures
            views_of(r.contract_addrs@) == views_of(self.user_accounts_under_management@)
                + views_of(self.dear_leader_accounts_under_management@),
    {
        let mut contract_addrs: Vec<String> = Vec::new();
        let mut i: usize = 0;
        let n_user = self.user_accounts_under_management.len();
        while i < n_user
            invariant
                n_user == self.user_accounts_under_management@.len(),
                i <= n_user,
                views_of(contract_addrs@) == views_of(
                    self.user_accounts_under_management@.take(i as int),
                ),
            decreases n_user - i,
        {
            proof {
                lemma_views_take_step(self.user_accounts_under_management@, i as int);
            }
            let ghost pre = contract_addrs@;
            contract_addrs.push(self.user_accounts_under_management[i].clone());
            proof {
                assert(contract_addrs@.drop_last() =~= pre);
                lemma_views_push_back(
                    contract_addrs@,
                    views_of(self.user_accounts_under_management@.take(i as int)),
                );
            }
            i += 1;
        }
        proof {
            assert(self.user_accounts_under_management@.take(n_user as int)
                =~= self.user_accounts_under_management@);
        }
        let mut j: usize = 0;
        let n_dl = self.dear_leader_accounts_under_management.len();
        while j < n_dl
            invariant
                n_user == self.user_accounts_under_management@.len(),
                n_dl == self.dear_leader_accounts_under_management@.len(),
                j <= n_dl,
                views_of(contract_addrs@) == views_of(self.user_accounts_under_management@)
                    + views_of(self.dear_leader_accounts_under_management@.take(j as int)),
            decreases n_dl - j,
        {
            proof {
                lemma_views_take_step(self.dear_leader_accounts_under_management@, j as int);
            }
            let ghost pre = contract_addrs@;
            contract_addrs.push(self.dear_leader_accounts_under_management[j].clone());
            proof {
                let uv = views_of(self.user_accounts_under_management@);
                let dv = views_of(self.dear_leader_accounts_under_management@.take(j as int));
                let x = self.dear_leader_accounts_under_management@[j as int]@;
                assert(contract_addrs@.drop_last() =~= pre);
                lemma_views_push_back(contract_addrs@, uv + dv);
                assert((uv + dv).push(x) =~= uv + dv.push(x));
            }
            j += 1;
        }
        proof {
            assert(self.dear_leader_accounts_under_management@.take(n_dl as int)
                =~= self.dear_leader_accounts_under_management@);
        }
        GetAllContractsUnderManagementResponse { contract_addrs }
    }
}

/// Whether some element of the list reads as the address `x`.
fn list_contains_addr(list: &Vec<String>, x: &String) -> (r: bool)
    ensures
        r == list_has(list@, x@),
{
    let n = list.len();
    let mut i: usize = 0;
    while i < n
        invariant
            n == list@.len(),
            i <= n,
            forall|j: int| 0 <= j < i ==> (#[trigger] list@[j])@ != x@,
        decreases n - i,
    {
        if list[i] == *x {
            return true;
        }
        i += 1;
    }
    false
}

/// Taking one more element appends its view.
proof fn lemma_views_take_step(s: Seq<String>, i: int)
    requires
        0 <= i < s.len(),
    ensures
        views_of(s.take(i + 1)) =~= views_of(s.take(i)).push(s[i]@),
{
    assert forall|q: int| 0 <= q < i + 1 implies views_of(s.take(i + 1))[q] == views_of(
        s.take(i),
    ).push(s[i]@)[q] by {
        assert(s.take(i + 1)[q] == s[q]);
        if q < i {
            assert(s.take(i)[q] == s[q]);
        }
    }
}

/// A step of the concatenation invariant: if the views collected so far
/// read `prefix_views` and one more element is pushed, the whole reads
/// `prefix_views` plus that element's view.
proof fn lemma_views_push_back(collected: Seq<String>, prefix_views: Seq<Seq<char>>)
    requires
        collected.len() > 0,
        views_of(collected.drop_last()) == prefix_views,
    ensures
        views_of(collected) =~= prefix_views.push(collected.last()@),
{
    assert forall|q: int| 0 <= q < collected.len() implies views_of(collected)[q]
        == prefix_views.push(collected.last()@)[q] by {
        if q < collected.len() - 1 {
            assert(views_of(collected.drop_last())[q] == collected.drop_last()[q]@);
            assert(collected.drop_last()[q] == collected[q]);
        }
    }
}

} // verus!
