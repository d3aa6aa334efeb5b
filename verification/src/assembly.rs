//! The assembly: system-of-record for delegation relationships and
//! per-proposal vote history.
//!
//! It owns three registries. `boss_vote_power` holds one entry per
//! registered boss account, with the dear leader it currently delegates to,
//! if any. `dear_leader_board` holds one entry per registered dear-leader
//! account, with the set of bosses currently delegating to it.
//! `proposal_vote_history` holds, per proposal, the boss accounts whose
//! vote has already been recorded.
//!
//! The well-formedness invariant [`AssemblyState::wf`] keeps the first two
//! registries consistent in both directions: a boss's edge points at a dear
//! leader exactly when the boss appears in that dear leader's delegator
//! list, and each delegator list is duplicate-free. Registration state and
//! delegator-set membership therefore always agree.

use vstd::prelude::*;

use crate::common::{distinct_views, list_at, list_has, views_of};
use crate::common::{ExecuteMsg as CommonExecuteMsg, WasmInstruction};

verus! {

/// One registered boss account and the delegation edge it owns:
/// `None` means registered but undelegated.
#[derive(Clone, Debug, PartialEq)]
pub struct BossEntry {
    pub addr: String,
    pub delegate: Option<String>,
}

/// One registered dear-leader account and its current delegators.
#[derive(Clone, Debug, PartialEq)]
pub struct BoardEntry {
    pub dear_leader: String,
    pub delegators: Vec<String>,
}

/// The boss accounts with a recorded vote on one proposal.
#[derive(Clone, Debug, PartialEq)]
pub struct VoteRecord {
    pub proposal_id: u64,
    pub voters: Vec<String>,
}

/// The assembly's whole state.
#[derive(Clone, Debug)]
pub struct AssemblyState {
    /// The only address allowed to register new dear leaders.
    pub dear_leader_account_factory: String,
    pub boss_vote_power: Vec<BossEntry>,
    pub dear_leader_board: Vec<BoardEntry>,
    pub proposal_vote_history: Vec<VoteRecord>,
}

/// Everything an assembly operation can fail with.
#[derive(Clone, Copy, Debug, PartialEq, Eq, Structural)]
pub enum ContractError {
    Unauthorized,
    AccountNotRegistered,
    UserAccountAlreadyRegister,
    AlreadyIsADearLeader,
    InvalidDearLeader,
    DearLeaderNotRegistered,
    InternalErrorInLogic,
    InvalidVote,
    NoVotePower,
    ProposalNotRegistered,
}

/// What the assembly can be asked to do, with an implicit caller identity.
#[derive(Clone, Debug)]
pub enum ExecuteMsg {
    UserAccountVote { proposal_id: u64, vote_option: u64 },
    DearLeaderVote { proposal_id: u64, vote_option: u64 },
    TransferVotePower { dear_leader_addr: String },
    ReclaimVotePower {},
    RegisterDearLeader { new_dear_leader_addr: String },
    RegisterUserAccount {},
    UnregisterUserAccount {},
}

/// The assembly's instantiation message.
#[derive(Clone, Debug)]
pub struct InstantiateMsg {
    pub dear_leader_account_factory: String,
}

/// A boss's position in the delegation state machine, as the contracts
/// speak of it: not registered at all, registered without a delegate, or
/// delegating to a given dear leader.
pub enum DelegationStatus {
    Unregistered,
    Undelegated,
    DelegatedTo(Seq<char>),
}

pub open spec fn boss_has(s: Seq<BossEntry>, b: Seq<char>) -> bool {
    exists|i: int| 0 <= i < s.len() && (#[trigger] s[i]).addr@ == b
}

pub open spec fn boss_at(s: Seq<BossEntry>, b: Seq<char>) -> int {
    choose|i: int| 0 <= i < s.len() && (#[trigger] s[i]).addr@ == b
}

/// The delegation status the registry `s` assigns to address `b`.
pub open spec fn status_in(s: Seq<BossEntry>, b: Seq<char>) -> DelegationStatus {
    if boss_has(s, b) {
        match s[boss_at(s, b)].delegate {
            Option::None => DelegationStatus::Undelegated,
            Option::Some(d) => DelegationStatus::DelegatedTo(d@),
        }
    } else {
        DelegationStatus::Unregistered
    }
}

pub open spec fn bosses_unique(s: Seq<BossEntry>) -> bool {
    forall|i: int, j: int| 0 <= i < j < s.len() ==> (#[trigger] s[i]).addr@ != (#[trigger] s[j]).addr@
}

pub open spec fn board_has(s: Seq<BoardEntry>, d: Seq<char>) -> bool {
    exists|i: int| 0 <= i < s.len() && (#[trigger] s[i]).dear_leader@ == d
}

pub open spec fn board_at(s: Seq<BoardEntry>, d: Seq<char>) -> int {
    choose|i: int| 0 <= i < s.len() && (#[trigger] s[i]).dear_leader@ == d
}

/// The delegator list the board `s` holds for dear leader `d`, as views.
pub open spec fn delegators_in(s: Seq<BoardEntry>, d: Seq<char>) -> Seq<Seq<char>> {
    views_of(s[board_at(s, d)].delegators@)
}

pub open spec fn board_unique(s: Seq<BoardEntry>) -> bool {
    forall|i: int, j: int|
        0 <= i < j < s.len() ==> (#[trigger] s[i]).dear_leader@ != (#[trigger] s[j]).dear_leader@
}

pub open spec fn record_has(s: Seq<VoteRecord>, p: u64) -> bool {
    exists|i: int| 0 <= i < s.len() && (#[trigger] s[i]).proposal_id == p
}

pub open spec fn record_at(s: Seq<VoteRecord>, p: u64) -> int {
    choose|i: int| 0 <= i < s.len() && (#[trigger] s[i]).proposal_id == p
}

/// The recorded voters for proposal `p`, as views.
pub open spec fn voters_in(s: Seq<VoteRecord>, p: u64) -> Seq<Seq<char>> {
    views_of(s[record_at(s, p)].voters@)
}

pub open spec fn records_unique(s: Seq<VoteRecord>) -> bool {
    forall|i: int, j: int|
        0 <= i < j < s.len() ==> (#[trigger] s[i]).proposal_id != (#[trigger] s[j]).proposal_id
}

/// Both registries of `a` and `b` assign the same status to every address
/// but `except`.
pub open spec fn statuses_agree_except(a: Seq<BossEntry>, b: Seq<BossEntry>, except: Seq<char>) -> bool {
    forall|c: Seq<char>|
        #![trigger status_in(a, c)]
        #![trigger status_in(b, c)]
        c != except ==> status_in(a, c) == status_in(b, c)
}

/// The boards `a` and `b` register the same dear leaders and give each the
/// same delegators, except possibly at `except`.
pub open spec fn boards_agree_except(a: Seq<BoardEntry>, b: Seq<BoardEntry>, except: Seq<char>) -> bool {
    &&& forall|d: Seq<char>|
        #![trigger board_has(a, d)]
        #![trigger board_has(b, d)]
        d != except ==> board_has(a, d) == board_has(b, d)
    &&& forall|d: Seq<char>|
        #![trigger delegators_in(a, d)]
        #![trigger delegators_in(b, d)]
        d != except && board_has(a, d) ==> delegators_in(a, d) == delegators_in(b, d)
}

/// The vote histories `a` and `b` agree on every proposal but `except`.
pub open spec fn records_agree_except(a: Seq<VoteRecord>, b: Seq<VoteRecord>, except: u64) -> bool {
    &&& forall|q: u64|
        #![trigger record_has(a, q)]
        #![trigger record_has(b, q)]
        q != except ==> record_has(a, q) == record_has(b, q)
    &&& forall|q: u64|
        #![trigger voters_in(a, q)]
        #![trigger voters_in(b, q)]
        q != except && record_has(a, q) ==> voters_in(a, q) == voters_in(b, q)
}

/// The addresses a batch of instructions is directed at, in order.
pub open spec fn msg_targets(msgs: Seq<WasmInstruction>) -> Seq<Seq<char>> {
    msgs.map_values(|m: WasmInstruction| m.contract_addr@)
}

/// The fan-out of a dear-leader vote: the delegators that have not voted
/// yet, in list order, cut off after `cap` of them.
pub open spec fn fanout_targets(
    delegators: Seq<Seq<char>>,
    voted: Seq<Seq<char>>,
    cap: nat,
) -> Seq<Seq<char>>
    decreases delegators.len(),
{
    if delegators.len() == 0 || cap == 0 {
        Seq::empty()
    } else if voted.contains(delegators[0]) {
        fanout_targets(delegators.drop_first(), voted, cap)
    } else {
        seq![delegators[0]] + fanout_targets(delegators.drop_first(), voted, (cap - 1) as nat)
    }
}

/// The fan-out never exceeds its cap: a dear-leader vote dispatches at
/// most `cap` forward instructions, however many delegators there are.
pub proof fn lemma_fanout_cap(delegators: Seq<Seq<char>>, voted: Seq<Seq<char>>, cap: nat)
    ensures
        fanout_targets(delegators, voted, cap).len() <= cap,
    decreases delegators.len(),
{
    if delegators.len() == 0 || cap == 0 {
    } else if voted.contains(delegators[0]) {
        lemma_fanout_cap(delegators.drop_first(), voted, cap);
    } else {
        lemma_fanout_cap(delegators.drop_first(), voted, (cap - 1) as nat);
    }
}

/// When none of the delegators has voted, the cap is the only limit: the
/// fan-out serves the first `cap` delegators, or all of them if they fit.
pub proof fn lemma_fanout_cap_reached(delegators: Seq<Seq<char>>, voted: Seq<Seq<char>>, cap: nat)
    requires
        forall|i: int| 0 <= i < delegators.len() ==> !voted.contains(#[trigger] delegators[i]),
    ensures
        fanout_targets(delegators, voted, cap).len() == if delegators.len() <= cap {
            delegators.len() as int
        } else {
            cap as int
        },
    decreases delegators.len(),
{
    if delegators.len() == 0 || cap == 0 {
    } else {
        assert(!voted.contains(delegators[0]));
        assert forall|i: int| 0 <= i < delegators.drop_first().len() implies !voted.contains(
            #[trigger] delegators.drop_first()[i],
        ) by {
            assert(delegators.drop_first()[i] == delegators[i + 1]);
        }
        lemma_fanout_cap_reached(delegators.drop_first(), voted, (cap - 1) as nat);
    }
}

/// Soundness of the fan-out: every served address is a delegator that had
/// not voted.
pub proof fn lemma_fanout_sound(delegators: Seq<Seq<char>>, voted: Seq<Seq<char>>, cap: nat)
    ensures
        forall|i: int|
            0 <= i < fanout_targets(delegators, voted, cap).len() ==> delegators.contains(
                #[trigger] fanout_targets(delegators, voted, cap)[i],
            ) && !voted.contains(fanout_targets(delegators, voted, cap)[i]),
    decreases delegators.len(),
{
    if delegators.len() == 0 || cap == 0 {
    } else {
        let rest = delegators.drop_first();
        let sub_cap: nat = if voted.contains(delegators[0]) {
            cap
        } else {
            (cap - 1) as nat
        };
        lemma_fanout_sound(rest, voted, sub_cap);
        assert forall|i: int|
            0 <= i < fanout_targets(delegators, voted, cap).len() implies delegators.contains(
            #[trigger] fanout_targets(delegators, voted, cap)[i],
        ) && !voted.contains(fanout_targets(delegators, voted, cap)[i]) by {
            let ts = fanout_targets(delegators, voted, cap);
            if voted.contains(delegators[0]) {
                assert(ts[i] == fanout_targets(rest, voted, sub_cap)[i]);
                let w = choose|w: int| 0 <= w < rest.len() && rest[w] == ts[i];
                assert(delegators[w + 1] == rest[w]);
            } else {
                if i == 0 {
                    assert(ts[0] == delegators[0]);
                } else {
                    assert(ts[i] == fanout_targets(rest, voted, sub_cap)[i - 1]);
                    let w = choose|w: int| 0 <= w < rest.len() && rest[w] == ts[i];
                    assert(delegators[w + 1] == rest[w]);
                }
            }
        }
    }
}

/// Completeness of the fan-out: with a cap no smaller than the delegator
/// list, every delegator that had not voted is served.
pub proof fn lemma_fanout_complete(delegators: Seq<Seq<char>>, voted: Seq<Seq<char>>, cap: nat)
    requires
        cap >= delegators.len(),
    ensures
        forall|b: Seq<char>|
            delegators.contains(b) && !voted.contains(b) ==> fanout_targets(
                delegators,
                voted,
                cap,
            ).contains(b),
    decreases delegators.len(),
{
    if delegators.len() == 0 || cap == 0 {
    } else {
        let rest = delegators.drop_first();
        let sub_cap: nat = if voted.contains(delegators[0]) {
            cap
        } else {
            (cap - 1) as nat
        };
        lemma_fanout_complete(rest, voted, sub_cap);
        assert forall|b: Seq<char>|
            delegators.contains(b) && !voted.contains(b) implies fanout_targets(
            delegators,
            voted,
            cap,
        ).contains(b) by {
            let ts = fanout_targets(delegators, voted, cap);
            let w = choose|w: int| 0 <= w < delegators.len() && delegators[w] == b;
            if w == 0 && !voted.contains(delegators[0]) {
                assert(ts[0] == b);
            } else {
                assert(rest[w - 1] == delegators[w]);
                assert(rest.contains(b));
                let sub = fanout_targets(rest, voted, sub_cap);
                let q = choose|q: int| 0 <= q < sub.len() && sub[q] == b;
                if voted.contains(delegators[0]) {
                    assert(ts[q] == sub[q]);
                } else {
                    assert(ts[q + 1] == sub[q]);
                }
            }
        }
    }
}

/// Like [`boards_agree_except`], with two keys allowed to change.
pub open spec fn boards_agree_except2(
    a: Seq<BoardEntry>,
    b: Seq<BoardEntry>,
    x: Seq<char>,
    y: Seq<char>,
) -> bool {
    &&& forall|d: Seq<char>|
        #![trigger board_has(a, d)]
        #![trigger board_has(b, d)]
        d != x && d != y ==> board_has(a, d) == board_has(b, d)
    &&& forall|d: Seq<char>|
        #![trigger delegators_in(a, d)]
        #![trigger delegators_in(b, d)]
        d != x && d != y && board_has(a, d) ==> delegators_in(a, d) == delegators_in(b, d)
}

impl AssemblyState {
    /// What the registries say about address `b` as a boss.
    pub open spec fn boss_status(self, b: Seq<char>) -> DelegationStatus {
        status_in(self.boss_vote_power@, b)
    }

    pub open spec fn is_registered_boss(self, b: Seq<char>) -> bool {
        boss_has(self.boss_vote_power@, b)
    }

    pub open spec fn is_dear_leader(self, d: Seq<char>) -> bool {
        board_has(self.dear_leader_board@, d)
    }

    /// The current delegators of dear leader `d`, in board order.
    pub open spec fn delegators_of(self, d: Seq<char>) -> Seq<Seq<char>> {
        delegators_in(self.dear_leader_board@, d)
    }

    /// A proposal is registered once at least one vote is recorded on it.
    pub open spec fn proposal_registered(self, p: u64) -> bool {
        record_has(self.proposal_vote_history@, p)
    }

    pub open spec fn has_voted(self, p: u64, b: Seq<char>) -> bool {
        self.proposal_registered(p) && voters_in(self.proposal_vote_history@, p).contains(b)
    }

    /// The well-formedness invariant. Every operation requires and
    /// preserves it.
    pub open spec fn wf(self) -> bool {
        &&& bosses_unique(self.boss_vote_power@)
        &&& board_unique(self.dear_leader_board@)
        &&& records_unique(self.proposal_vote_history@)
        // delegator lists are duplicate-free
        &&& forall|k: int|
            0 <= k < self.dear_leader_board@.len()
                ==> distinct_views((#[trigger] self.dear_leader_board@[k]).delegators@)
        // each proposal's voter record is a set: no boss is listed twice
        &&& forall|k: int|
            0 <= k < self.proposal_vote_history@.len()
                ==> distinct_views((#[trigger] self.proposal_vote_history@[k]).voters@)
        // every delegation edge has its boss listed on the target's board
        &&& forall|i: int|
            0 <= i < self.boss_vote_power@.len()
                ==> match (#[trigger] self.boss_vote_power@[i]).delegate {
                    Option::None => true,
                    Option::Some(d) => board_has(self.dear_leader_board@, d@) && delegators_in(
                        self.dear_leader_board@,
                        d@,
                    ).contains(self.boss_vote_power@[i].addr@),
                }
        // every listed delegator is a boss whose edge points right back
        &&& forall|k: int, j: int|
            0 <= k < self.dear_leader_board@.len() && 0 <= j
                < self.dear_leader_board@[k].delegators@.len()
                ==> status_in(
                    self.boss_vote_power@,
                    (#[trigger] self.dear_leader_board@[k].delegators@[j])@,
                ) == DelegationStatus::DelegatedTo(self.dear_leader_board@[k].dear_leader@)
    }

    /// A fresh assembly: empty registries, trusting `factory` to register
    /// dear leaders.
    pub fn new(dear_leader_account_factory: String) -> (r: AssemblyState)
        ensures
            r.wf(),
            r.dear_leader_account_factory@ == dear_leader_account_factory@,
            r.boss_vote_power@.len() == 0,
            r.dear_leader_board@.len() == 0,
            r.proposal_vote_history@.len() == 0,
    {
        AssemblyState {
            dear_leader_account_factory,
            boss_vote_power: Vec::new(),
            dear_leader_board: Vec::new(),
            proposal_vote_history: Vec::new(),
        }
    }
}

/// Pins the index a key lives at: under uniqueness, `boss_at` returns the
/// one index whose entry carries the key.
proof fn lemma_boss_at_is(s: Seq<BossEntry>, b: Seq<char>, i: int)
    requires
        bosses_unique(s),
        0 <= i < s.len(),
        s[i].addr@ == b,
    ensures
        boss_has(s, b),
        boss_at(s, b) == i,
{
    assert(boss_has(s, b));
    let j = boss_at(s, b);
    assert(0 <= j < s.len() && s[j].addr@ == b);
    if i < j {
        assert(s[i].addr@ != s[j].addr@);
    } else if j < i {
        assert(s[j].addr@ != s[i].addr@);
    }
}

proof fn lemma_board_at_is(s: Seq<BoardEntry>, d: Seq<char>, i: int)
    requires
        board_unique(s),
        0 <= i < s.len(),
        s[i].dear_leader@ == d,
    ensures
        board_has(s, d),
        board_at(s, d) == i,
{
    assert(board_has(s, d));
    let j = board_at(s, d);
    assert(0 <= j < s.len() && s[j].dear_leader@ == d);
    if i < j {
        assert(s[i].dear_leader@ != s[j].dear_leader@);
    } else if j < i {
        assert(s[j].dear_leader@ != s[i].dear_leader@);
    }
}

proof fn lemma_record_at_is(s: Seq<VoteRecord>, p: u64, i: int)
    requires
        records_unique(s),
        0 <= i < s.len(),
        s[i].proposal_id == p,
    ensures
        record_has(s, p),
        record_at(s, p) == i,
{
    assert(record_has(s, p));
    let j = record_at(s, p);
    assert(0 <= j < s.len() && s[j].proposal_id == p);
    if i < j {
        assert(s[i].proposal_id != s[j].proposal_id);
    } else if j < i {
        assert(s[j].proposal_id != s[i].proposal_id);
    }
}

/// Appending a fresh boss leaves every other address's status alone and
/// gives the new one the status its entry spells.
proof fn lemma_status_push(s: Seq<BossEntry>, e: BossEntry)
    requires
        bosses_unique(s),
        !boss_has(s, e.addr@),
    ensures
        bosses_unique(s.push(e)),
        statuses_agree_except(s, s.push(e), e.addr@),
        boss_has(s.push(e), e.addr@),
        boss_at(s.push(e), e.addr@) == s.len(),
        status_in(s.push(e), e.addr@) == match e.delegate {
            Option::None => DelegationStatus::Undelegated,
            Option::Some(d) => DelegationStatus::DelegatedTo(d@),
        },
{
    let t = s.push(e);
    assert forall|i: int, j: int| 0 <= i < j < t.len() implies (#[trigger] t[i]).addr@
        != (#[trigger] t[j]).addr@ by {
        if j < s.len() {
            assert(t[i] == s[i] && t[j] == s[j]);
        } else {
            assert(t[j] == e);
            assert(t[i] == s[i]);
            assert(s[i].addr@ != e.addr@) by {
                if s[i].addr@ == e.addr@ {
                    assert(boss_has(s, e.addr@));
                }
            }
        }
    }
    lemma_boss_at_is(t, e.addr@, s.len() as int);
    assert forall|c: Seq<char>|
        #![trigger status_in(s, c)]
        #![trigger status_in(t, c)]
    c != e.addr@ implies status_in(s, c) == status_in(t, c) by {
        if boss_has(s, c) {
            let i = boss_at(s, c);
            assert(0 <= i < s.len() && s[i].addr@ == c);
            assert(t[i] == s[i]);
            lemma_boss_at_is(t, c, i);
        } else {
            if boss_has(t, c) {
                let i = boss_at(t, c);
                assert(0 <= i < t.len() && t[i].addr@ == c);
                if i < s.len() {
                    assert(t[i] == s[i]);
                    assert(boss_has(s, c));
                } else {
                    assert(t[i] == e);
                }
            }
        }
    }
}

/// Replacing a boss's entry in place, same key, leaves every other
/// address's status alone.
proof fn lemma_status_update(s: Seq<BossEntry>, i: int, e: BossEntry)
    requires
        bosses_unique(s),
        0 <= i < s.len(),
        s[i].addr@ == e.addr@,
    ensures
        bosses_unique(s.update(i, e)),
        statuses_agree_except(s, s.update(i, e), e.addr@),
        boss_has(s.update(i, e), e.addr@),
        boss_at(s.update(i, e), e.addr@) == i,
        status_in(s.update(i, e), e.addr@) == match e.delegate {
            Option::None => DelegationStatus::Undelegated,
            Option::Some(d) => DelegationStatus::DelegatedTo(d@),
        },
{
    let t = s.update(i, e);
    assert forall|p: int, q: int| 0 <= p < q < t.len() implies (#[trigger] t[p]).addr@
        != (#[trigger] t[q]).addr@ by {
        assert(s[p].addr@ != s[q].addr@);
        assert(t[p] == if p == i { e } else { s[p] });
        assert(t[q] == if q == i { e } else { s[q] });
    }
    lemma_boss_at_is(t, e.addr@, i);
    assert forall|c: Seq<char>|
        #![trigger status_in(s, c)]
        #![trigger status_in(t, c)]
    c != e.addr@ implies status_in(s, c) == status_in(t, c) by {
        if boss_has(s, c) {
            let p = boss_at(s, c);
            assert(0 <= p < s.len() && s[p].addr@ == c);
            assert(p != i);
            assert(t[p] == s[p]);
            lemma_boss_at_is(t, c, p);
        } else {
            if boss_has(t, c) {
                let p = boss_at(t, c);
                assert(0 <= p < t.len() && t[p].addr@ == c);
                assert(p != i);
                assert(t[p] == s[p]);
                assert(boss_has(s, c));
            }
        }
    }
}

/// Removing a boss's entry leaves every other address's status alone and
/// unregisters that one.
proof fn lemma_status_remove(s: Seq<BossEntry>, i: int)
    requires
        bosses_unique(s),
        0 <= i < s.len(),
    ensures
        bosses_unique(s.remove(i)),
        statuses_agree_except(s, s.remove(i), s[i].addr@),
        !boss_has(s.remove(i), s[i].addr@),
        status_in(s.remove(i), s[i].addr@) == DelegationStatus::Unregistered,
{
    let t = s.remove(i);
    s.remove_ensures(i);
    assert forall|p: int, q: int| 0 <= p < q < t.len() implies (#[trigger] t[p]).addr@
        != (#[trigger] t[q]).addr@ by {
        let p0 = if p < i { p } else { p + 1 };
        let q0 = if q < i { q } else { q + 1 };
        assert(t[p] == s[p0] && t[q] == s[q0]);
        assert(s[p0].addr@ != s[q0].addr@);
    }
    if boss_has(t, s[i].addr@) {
        let p = boss_at(t, s[i].addr@);
        let p0 = if p < i { p } else { p + 1 };
        assert(t[p] == s[p0]);
        assert(s[p0].addr@ == s[i].addr@ && p0 != i);
        assert(false);
    }
    assert forall|c: Seq<char>|
        #![trigger status_in(s, c)]
        #![trigger status_in(t, c)]
    c != s[i].addr@ implies status_in(s, c) == status_in(t, c) by {
        if boss_has(s, c) {
            let p = boss_at(s, c);
            assert(0 <= p < s.len() && s[p].addr@ == c);
            assert(p != i);
            let p1 = if p < i { p } else { p - 1 };
            assert(t[p1] == s[p]);
            lemma_boss_at_is(t, c, p1);
        } else {
            if boss_has(t, c) {
                let p = boss_at(t, c);
                let p0 = if p < i { p } else { p + 1 };
                assert(t[p] == s[p0]);
                assert(boss_has(s, c));
            }
        }
    }
}

/// Appending a fresh board entry leaves every other dear leader's
/// registration and delegators alone.
proof fn lemma_board_push(s: Seq<BoardEntry>, e: BoardEntry)
    requires
        board_unique(s),
        !board_has(s, e.dear_leader@),
    ensures
        board_unique(s.push(e)),
        boards_agree_except(s, s.push(e), e.dear_leader@),
        board_has(s.push(e), e.dear_leader@),
        board_at(s.push(e), e.dear_leader@) == s.len(),
        delegators_in(s.push(e), e.dear_leader@) == views_of(e.delegators@),
        forall|d: Seq<char>| board_has(s, d) ==> #[trigger] board_has(s.push(e), d),
{
    let t = s.push(e);
    assert forall|i: int, j: int| 0 <= i < j < t.len() implies (#[trigger] t[i]).dear_leader@
        != (#[trigger] t[j]).dear_leader@ by {
        if j < s.len() {
            assert(t[i] == s[i] && t[j] == s[j]);
        } else {
            assert(t[j] == e);
            assert(t[i] == s[i]);
            if s[i].dear_leader@ == e.dear_leader@ {
                assert(board_has(s, e.dear_leader@));
            }
        }
    }
    lemma_board_at_is(t, e.dear_leader@, s.len() as int);
    assert forall|d: Seq<char>|
        #![trigger board_has(s, d)]
        #![trigger board_has(t, d)]
    d != e.dear_leader@ implies board_has(s, d) == board_has(t, d) by {
        if board_has(s, d) {
            let i = board_at(s, d);
            assert(t[i] == s[i]);
            assert(board_has(t, d));
        } else if board_has(t, d) {
            let i = board_at(t, d);
            if i < s.len() {
                assert(t[i] == s[i]);
                assert(board_has(s, d));
            } else {
                assert(t[i] == e);
            }
        }
    }
    assert forall|d: Seq<char>|
        #![trigger delegators_in(s, d)]
        #![trigger delegators_in(t, d)]
    d != e.dear_leader@ && board_has(s, d) implies delegators_in(s, d) == delegators_in(t, d) by {
        let i = board_at(s, d);
        assert(0 <= i < s.len() && s[i].dear_leader@ == d);
        assert(t[i] == s[i]);
        lemma_board_at_is(t, d, i);
    }
}

/// Replacing a board entry in place, same key, leaves every other dear
/// leader's registration and delegators alone.
proof fn lemma_board_update(s: Seq<BoardEntry>, i: int, e: BoardEntry)
    requires
        board_unique(s),
        0 <= i < s.len(),
        s[i].dear_leader@ == e.dear_leader@,
    ensures
        board_unique(s.update(i, e)),
        boards_agree_except(s, s.update(i, e), e.dear_leader@),
        forall|d: Seq<char>| #![trigger board_has(s.update(i, e), d)] board_has(s.update(i, e), d) == board_has(s, d),
        board_at(s.update(i, e), e.dear_leader@) == i,
        delegators_in(s.update(i, e), e.dear_leader@) == views_of(e.delegators@),
{
    let t = s.update(i, e);
    assert forall|p: int, q: int| 0 <= p < q < t.len() implies (#[trigger] t[p]).dear_leader@
        != (#[trigger] t[q]).dear_leader@ by {
        assert(s[p].dear_leader@ != s[q].dear_leader@);
        assert(t[p] == if p == i { e } else { s[p] });
        assert(t[q] == if q == i { e } else { s[q] });
    }
    lemma_board_at_is(t, e.dear_leader@, i);
    assert forall|d: Seq<char>| #![trigger board_has(t, d)] board_has(t, d) == board_has(s, d) by {
        if board_has(s, d) {
            let p = board_at(s, d);
            assert(t[p] == if p == i { e } else { s[p] });
            assert(t[p].dear_leader@ == d);
            assert(board_has(t, d));
        } else if board_has(t, d) {
            let p = board_at(t, d);
            assert(t[p] == if p == i { e } else { s[p] });
            assert(board_has(s, d));
        }
    }
    assert forall|d: Seq<char>|
        #![trigger delegators_in(s, d)]
        #![trigger delegators_in(t, d)]
    d != e.dear_leader@ && board_has(s, d) implies delegators_in(s, d) == delegators_in(t, d) by {
        let p = board_at(s, d);
        assert(0 <= p < s.len() && s[p].dear_leader@ == d);
        assert(p != i);
        assert(t[p] == s[p]);
        lemma_board_at_is(t, d, p);
    }
}

impl AssemblyState {
    /// The position of `addr` in the boss registry, if it is registered.
    fn find_boss(&self, addr: &String) -> (r: Option<usize>)
        ensures
            match r {
                Option::Some(i) => i < self.boss_vote_power@.len()
                    && self.boss_vote_power@[i as int].addr@ == addr@,
                Option::None => !boss_has(self.boss_vote_power@, addr@),
            },
    {
        let n = self.boss_vote_power.len();
        let mut i: usize = 0;
        while i < n
            invariant
                n == self.boss_vote_power@.len(),
                i <= n,
                forall|j: int| 0 <= j < i ==> (#[trigger] self.boss_vote_power@[j]).addr@ != addr@,
            decreases n - i,
        {
            if self.boss_vote_power[i].addr == *addr {
                return Option::Some(i);
            }
            i += 1;
        }
        Option::None
    }

    /// The position of `addr` in the dear-leader board, if it is registered.
    fn find_board(&self, addr: &String) -> (r: Option<usize>)
        ensures
            match r {
                Option::Some(i) => i < self.dear_leader_board@.len()
                    && self.dear_leader_board@[i as int].dear_leader@ == addr@,
                Option::None => !board_has(self.dear_leader_board@, addr@),
            },
    {
        let n = self.dear_leader_board.len();
        let mut i: usize = 0;
        while i < n
            invariant
                n == self.dear_leader_board@.len(),
                i <= n,
                forall|j: int|
                    0 <= j < i ==> (#[trigger] self.dear_leader_board@[j]).dear_leader@ != addr@,
            decreases n - i,
        {
            if self.dear_leader_board[i].dear_leader == *addr {
                return Option::Some(i);
            }
            i += 1;
        }
        Option::None
    }

    /// The position of proposal `p` in the vote history, if it has one.
    fn find_record(&self, p: u64) -> (r: Option<usize>)
        ensures
            match r {
                Option::Some(i) => i < self.proposal_vote_history@.len()
                    && self.proposal_vote_history@[i as int].proposal_id == p,
                Option::None => !record_has(self.proposal_vote_history@, p),
            },
    {
        let n = self.proposal_vote_history.len();
        let mut i: usize = 0;
        while i < n
            invariant
                n == self.proposal_vote_history@.len(),
                i <= n,
                forall|j: int|
                    0 <= j < i ==> (#[trigger] self.proposal_vote_history@[j]).proposal_id != p,
            decreases n - i,
        {
            if self.proposal_vote_history[i].proposal_id == p {
                return Option::Some(i);
            }
            i += 1;
        }
        Option::None
    }

    /// What [`AssemblyState::user_account_vote`] promises.
    pub open spec fn user_account_vote_post(
        pre: AssemblyState,
        post: AssemblyState,
        sender: Seq<char>,
        proposal_id: u64,
        vote: u64,
        r: Result<Vec<WasmInstruction>, ContractError>,
    ) -> bool {
        &&& (vote < 1 || vote > 4 ==> r == Err::<Vec<WasmInstruction>, _>(
            ContractError::InvalidVote,
        ) && post == pre)
        &&& (1 <= vote <= 4 && pre.boss_status(sender) == DelegationStatus::Unregistered ==> r
            == Err::<Vec<WasmInstruction>, _>(ContractError::AccountNotRegistered) && post == pre)
        &&& (1 <= vote <= 4 && pre.boss_status(sender) != DelegationStatus::Unregistered ==> {
            &&& r matches Ok(msgs) && msgs@.len() == 1 && msgs@[0].is_assembly_vote(
                sender,
                proposal_id,
                vote,
            )
            &&& post.boss_vote_power == pre.boss_vote_power
            &&& post.dear_leader_board == pre.dear_leader_board
            &&& post.dear_leader_account_factory == pre.dear_leader_account_factory
            &&& post.proposal_registered(proposal_id)
            &&& post.has_voted(proposal_id, sender)
            &&& records_agree_except(
                pre.proposal_vote_history@,
                post.proposal_vote_history@,
                proposal_id,
            )
            // the record is a set: a boss already recorded is not recorded
            // again, though the forward instruction is still emitted
            &&& (pre.has_voted(proposal_id, sender) ==> post.proposal_vote_history == pre
                .proposal_vote_history)
            &&& voters_in(post.proposal_vote_history@, proposal_id) == if pre.has_voted(
                proposal_id,
                sender,
            ) {
                voters_in(pre.proposal_vote_history@, proposal_id)
            } else if pre.proposal_registered(proposal_id) {
                voters_in(pre.proposal_vote_history@, proposal_id).push(sender)
            } else {
                seq![sender]
            }
        })
    }

    /// Records the caller's own vote on a proposal and forwards one
    /// instruction to the caller's account to cast it. The vote option
    /// must be one of 1 to 4 and the caller must be a registered boss; the
    /// proposal's record is created on its first vote. The record is a
    /// set: a boss that votes again on the same proposal stays listed
    /// once, while the forward instruction is emitted for every vote.
    pub fn user_account_vote(&mut self, sender: &String, proposal_id: u64, vote: u64) -> (r: Result<
        Vec<WasmInstruction>,
        ContractError,
    >)
        requires
            old(self).wf(),
        ensures
            final(self).wf(),
            AssemblyState::user_account_vote_post(
                *old(self),
                *final(self),
                sender@,
                proposal_id,
                vote,
                r,
            ),
    {
        if vote < 1 || vote > 4 {
            return Err(ContractError::InvalidVote);
        }
        if self.find_boss(sender).is_none() {
            return Err(ContractError::AccountNotRegistered);
        }
        let ghost old_hist = self.proposal_vote_history@;
        match self.find_record(proposal_id) {
            Option::Some(i) => {
                proof {
                    lemma_record_at_is(old_hist, proposal_id, i as int);
                }
                // the record is a set: a boss already recorded stays
                // recorded once
                let already = list_contains(&self.proposal_vote_history[i].voters, sender);
                proof {
                    assert(already == voters_in(old_hist, proposal_id).contains(sender@));
                }
                if !already {
                    let mut rec = self.proposal_vote_history.remove(i);
                    let ghost old_voters = rec.voters@;
                    rec.voters.push(sender.clone());
                    let ghost new_rec = rec;
                    self.proposal_vote_history.insert(i, rec);
                    proof {
                        lemma_remove_insert(old_hist, i as int, new_rec);
                        lemma_record_update(old_hist, i as int, new_rec);
                        lemma_views_push(old_voters, new_rec.voters@[old_voters.len() as int]);
                        assert(voters_in(self.proposal_vote_history@, proposal_id) == views_of(
                            old_voters,
                        ).push(sender@));
                        assert(voters_in(self.proposal_vote_history@, proposal_id).last()
                            == sender@);
                        // the extended list stays duplicate-free
                        assert forall|p: int, q: int|
                            0 <= p < q < new_rec.voters@.len() implies (
                        #[trigger] new_rec.voters@[p])@ != (#[trigger] new_rec.voters@[q])@ by {
                            if q == old_voters.len() {
                                assert(new_rec.voters@[p] == old_voters[p]);
                                if old_voters[p]@ == sender@ {
                                    assert(views_of(old_voters)[p] == sender@);
                                    assert(voters_in(old_hist, proposal_id).contains(sender@));
                                }
                            } else {
                                assert(new_rec.voters@[p] == old_voters[p]);
                                assert(new_rec.voters@[q] == old_voters[q]);
                            }
                        }
                        assert forall|k: int|
                            0 <= k < self.proposal_vote_history@.len() implies distinct_views(
                            (#[trigger] self.proposal_vote_history@[k]).voters@,
                        ) by {
                            if k != i as int {
                                assert(self.proposal_vote_history@[k] == old_hist[k]);
                            }
                        }
                    }
                }
            },
            Option::None => {
                let mut voters: Vec<String> = Vec::new();
                voters.push(sender.clone());
                let rec = VoteRecord { proposal_id, voters };
                proof {
                    lemma_record_push(old_hist, rec);
                    assert(views_of(rec.voters@) =~= seq![sender@]);
                    assert(distinct_views(rec.voters@));
                }
                self.proposal_vote_history.push(rec);
                proof {
                    assert(voters_in(self.proposal_vote_history@, proposal_id)[0] == sender@);
                    assert forall|k: int|
                        0 <= k < self.proposal_vote_history@.len() implies distinct_views(
                        (#[trigger] self.proposal_vote_history@[k]).voters@,
                    ) by {
                        if k < old_hist.len() {
                            assert(self.proposal_vote_history@[k] == old_hist[k]);
                        } else {
                            assert(self.proposal_vote_history@[k] == rec);
                        }
                    }
                }
            },
        }
        let mut msgs: Vec<WasmInstruction> = Vec::new();
        msgs.push(
            WasmInstruction {
                contract_addr: sender.clone(),
                msg: CommonExecuteMsg::AssemblyVote { proposal_id, vote_option: vote },
            },
        );
        Ok(msgs)
    }

    /// What [`AssemblyState::dear_leader_vote`] promises. The state does
    /// not change: a dear-leader vote only dispatches instructions.
    pub open spec fn dear_leader_vote_post(
        pre: AssemblyState,
        sender: Seq<char>,
        proposal_id: u64,
        vote: u64,
        r: Result<Vec<WasmInstruction>, ContractError>,
    ) -> bool {
        &&& (vote < 1 || vote > 4 ==> r == Err::<Vec<WasmInstruction>, _>(
            ContractError::InvalidVote,
        ))
        &&& (1 <= vote <= 4 && !pre.is_dear_leader(sender) ==> r == Err::<Vec<WasmInstruction>, _>(
            ContractError::DearLeaderNotRegistered,
        ))
        &&& (1 <= vote <= 4 && pre.is_dear_leader(sender) && pre.delegators_of(sender).len() == 0
            ==> r == Err::<Vec<WasmInstruction>, _>(ContractError::NoVotePower))
        &&& (1 <= vote <= 4 && pre.is_dear_leader(sender) && pre.delegators_of(sender).len() > 0
            && !pre.proposal_registered(proposal_id) ==> r == Err::<Vec<WasmInstruction>, _>(
            ContractError::ProposalNotRegistered,
        ))
        &&& (1 <= vote <= 4 && pre.is_dear_leader(sender) && pre.delegators_of(sender).len() > 0
            && pre.proposal_registered(proposal_id) ==> (r matches Ok(msgs) && {
            let targets = fanout_targets(
                pre.delegators_of(sender),
                voters_in(pre.proposal_vote_history@, proposal_id),
                10,
            );
            &&& msgs@.len() == targets.len()
            &&& msgs@.len() <= 10
            &&& forall|q: int|
                0 <= q < msgs@.len() ==> (#[trigger] msgs@[q]).is_assembly_vote(
                    targets[q],
                    proposal_id,
                    vote,
                )
        }))
    }

    /// Fans a dear leader's vote out to its delegators: one forward
    /// instruction per delegator that has not yet voted on the proposal,
    /// in board order, capped at 10 per invocation. The proposal must
    /// already have a vote record; a dear leader cannot cast the first
    /// vote on a proposal.
    pub fn dear_leader_vote(&self, sender: &String, proposal_id: u64, vote: u64) -> (r: Result<
        Vec<WasmInstruction>,
        ContractError,
    >)
        requires
            self.wf(),
        ensures
            AssemblyState::dear_leader_vote_post(*self, sender@, proposal_id, vote, r),
    {
        if vote < 1 || vote > 4 {
            return Err(ContractError::InvalidVote);
        }
        let d_idx = match self.find_board(sender) {
            Option::Some(i) => i,
            Option::None => {
                return Err(ContractError::DearLeaderNotRegistered);
            },
        };
        proof {
            lemma_board_at_is(self.dear_leader_board@, sender@, d_idx as int);
        }
        let n = self.dear_leader_board[d_idx].delegators.len();
        if n == 0 {
            return Err(ContractError::NoVotePower);
        }
        let rec_idx = match self.find_record(proposal_id) {
            Option::Some(i) => i,
            Option::None => {
                return Err(ContractError::ProposalNotRegistered);
            },
        };
        proof {
            lemma_record_at_is(self.proposal_vote_history@, proposal_id, rec_idx as int);
        }
        let ghost all = self.delegators_of(sender@);
        let ghost voted = voters_in(self.proposal_vote_history@, proposal_id);
        let mut msgs: Vec<WasmInstruction> = Vec::new();
        let mut i: usize = 0;
        proof {
            assert(all.skip(0) =~= all);
            assert(msg_targets(msgs@) + fanout_targets(all, voted, 10) =~= fanout_targets(
                all,
                voted,
                10,
            ));
        }
        while i < n && msgs.len() < 10
            invariant
                self.wf(),
                d_idx < self.dear_leader_board@.len(),
                self.dear_leader_board@[d_idx as int].dear_leader@ == sender@,
                board_at(self.dear_leader_board@, sender@) == d_idx as int,
                rec_idx < self.proposal_vote_history@.len(),
                self.proposal_vote_history@[rec_idx as int].proposal_id == proposal_id,
                record_at(self.proposal_vote_history@, proposal_id) == rec_idx as int,
                n == self.dear_leader_board@[d_idx as int].delegators@.len(),
                all == self.delegators_of(sender@),
                voted == voters_in(self.proposal_vote_history@, proposal_id),
                i <= n,
                msgs@.len() <= 10,
                fanout_targets(all, voted, 10) == msg_targets(msgs@) + fanout_targets(
                    all.skip(i as int),
                    voted,
                    (10 - msgs@.len()) as nat,
                ),
                forall|q: int|
                    0 <= q < msgs@.len() ==> ((#[trigger] msgs@[q]).msg matches
                        CommonExecuteMsg::AssemblyVote { proposal_id: pp, vote_option: vv } && pp
                        == proposal_id && vv == vote),
            decreases n - i,
        {
            let b = &self.dear_leader_board[d_idx].delegators[i];
            proof {
                lemma_skip_step(all, i as int);
                assert(all[i as int] == views_of(
                    self.dear_leader_board@[d_idx as int].delegators@,
                )[i as int]);
                assert(all[i as int] == b@);
            }
            let already = list_contains(&self.proposal_vote_history[rec_idx].voters, b);
            let ghost pre_msgs = msgs@;
            let ghost cap_i: nat = (10 - msgs@.len()) as nat;
            if !already {
                msgs.push(
                    WasmInstruction {
                        contract_addr: b.clone(),
                        msg: CommonExecuteMsg::AssemblyVote { proposal_id, vote_option: vote },
                    },
                );
                proof {
                    assert(msg_targets(msgs@) =~= msg_targets(pre_msgs).push(b@)) by {
                        assert forall|q: int| 0 <= q < msgs@.len() implies msg_targets(msgs@)[q]
                            == msg_targets(pre_msgs).push(b@)[q] by {
                            if q < pre_msgs.len() {
                                assert(msgs@[q] == pre_msgs[q]);
                            } else {
                                assert(msgs@[q].contract_addr@ == b@);
                            }
                        }
                    }
                    assert(fanout_targets(all.skip(i as int), voted, cap_i) == seq![all[i as int]]
                        + fanout_targets(all.skip(i as int + 1), voted, (cap_i - 1) as nat)) by {
                        assert(all.skip(i as int)[0] == all[i as int]);
                        assert(!voted.contains(all.skip(i as int)[0]));
                        assert(all.skip(i as int).drop_first() == all.skip(i as int + 1));
                    }
                    assert(msg_targets(pre_msgs) + fanout_targets(all.skip(i as int), voted, cap_i)
                        =~= msg_targets(msgs@) + fanout_targets(
                        all.skip(i as int + 1),
                        voted,
                        (cap_i - 1) as nat,
                    ));
                }
            } else {
                proof {
                    assert(all.skip(i as int)[0] == all[i as int]);
                    assert(voted.contains(all.skip(i as int)[0]));
                    assert(all.skip(i as int).drop_first() == all.skip(i as int + 1));
                    assert(fanout_targets(all.skip(i as int), voted, cap_i) == fanout_targets(
                        all.skip(i as int + 1),
                        voted,
                        cap_i,
                    ));
                }
            }
            i += 1;
        }
        proof {
            if msgs@.len() < 10 {
                assert(i == n);
                assert(all.skip(n as int) =~= Seq::<Seq<char>>::empty());
                assert(fanout_targets(all, voted, 10) == msg_targets(msgs@));
            } else {
                assert(fanout_targets(all.skip(i as int), voted, (10 - msgs@.len()) as nat)
                    =~= Seq::<Seq<char>>::empty());
                assert(fanout_targets(all, voted, 10) =~= msg_targets(msgs@));
            }
            assert(msgs@.len() == fanout_targets(all, voted, 10).len());
            assert forall|q: int| 0 <= q < msgs@.len() implies (#[trigger] msgs@[q]).is_assembly_vote(
                fanout_targets(all, voted, 10)[q],
                proposal_id,
                vote,
            ) by {
                assert(fanout_targets(all, voted, 10)[q] == msg_targets(msgs@)[q]);
                assert(msg_targets(msgs@)[q] == msgs@[q].contract_addr@);
            }
        }
        Ok(msgs)
    }

    /// Dispatches one inbound message to the operation it names.
    /// `transfer_target_is_valid_addr` is the host's verdict on the
    /// syntactic validity of the address carried by a `TransferVotePower`
    /// message; it is ignored for every other message.
    pub fn execute(
        &mut self,
        sender: &String,
        msg: ExecuteMsg,
        transfer_target_is_valid_addr: bool,
    ) -> (r: Result<Vec<WasmInstruction>, ContractError>)
        requires
            old(self).wf(),
        ensures
            final(self).wf(),
            match msg {
                ExecuteMsg::UserAccountVote { proposal_id, vote_option } =>
                    AssemblyState::user_account_vote_post(
                    *old(self),
                    *final(self),
                    sender@,
                    proposal_id,
                    vote_option,
                    r,
                ),
                ExecuteMsg::DearLeaderVote { proposal_id, vote_option } => *final(self) == *old(
                    self,
                ) && AssemblyState::dear_leader_vote_post(
                    *old(self),
                    sender@,
                    proposal_id,
                    vote_option,
                    r,
                ),
                ExecuteMsg::TransferVotePower { dear_leader_addr } =>
                    AssemblyState::transfer_vote_power_post(
                    *old(self),
                    *final(self),
                    sender@,
                    dear_leader_addr@,
                    transfer_target_is_valid_addr,
                    r,
                ),
                ExecuteMsg::ReclaimVotePower {  } => AssemblyState::reclaim_vote_power_post(
                    *old(self),
                    *final(self),
                    sender@,
                    r,
                ),
                ExecuteMsg::RegisterDearLeader { new_dear_leader_addr } =>
                    AssemblyState::register_new_dear_leader_post(
                    *old(self),
                    *final(self),
                    sender@,
                    new_dear_leader_addr@,
                    r,
                ),
                ExecuteMsg::RegisterUserAccount {  } =>
                    AssemblyState::register_user_account_post(
                    *old(self),
                    *final(self),
                    sender@,
                    r,
                ),
                ExecuteMsg::UnregisterUserAccount {  } =>
                    AssemblyState::unregister_user_account_post(
                    *old(self),
                    *final(self),
                    sender@,
                    r,
                ),
            },
    {
        match msg {
            ExecuteMsg::UserAccountVote { proposal_id, vote_option } => self.user_account_vote(
                sender,
                proposal_id,
                vote_option,
            ),
            ExecuteMsg::DearLeaderVote { proposal_id, vote_option } => self.dear_leader_vote(
                sender,
                proposal_id,
                vote_option,
            ),
            ExecuteMsg::TransferVotePower { dear_leader_addr } => self.transfer_vote_power(
                sender,
                &dear_leader_addr,
                transfer_target_is_valid_addr,
            ),
            ExecuteMsg::ReclaimVotePower {  } => self.reclaim_vote_power(sender),
            ExecuteMsg::RegisterDearLeader { new_dear_leader_addr } => self
                .register_new_dear_leader(sender, new_dear_leader_addr),
            ExecuteMsg::RegisterUserAccount {  } => self.register_user_account(sender),
            ExecuteMsg::UnregisterUserAccount {  } => self.unregister_user_account(sender),
        }
    }

    /// What [`AssemblyState::register_user_account`] promises: `pre` the
    /// state before, `post` the state after, `r` the result.
    pub open spec fn register_user_account_post(
        pre: AssemblyState,
        post: AssemblyState,
        sender: Seq<char>,
        r: Result<Vec<WasmInstruction>, ContractError>,
    ) -> bool {
        &&& (pre.boss_status(sender) != DelegationStatus::Unregistered ==> r == Err::<
            Vec<WasmInstruction>,
            _,
        >(ContractError::UserAccountAlreadyRegister) && post == pre)
        &&& (pre.boss_status(sender) == DelegationStatus::Unregistered ==> {
            &&& r matches Ok(msgs) && msgs@.len() == 0
            &&& post.boss_status(sender) == DelegationStatus::Undelegated
            &&& statuses_agree_except(pre.boss_vote_power@, post.boss_vote_power@, sender)
            &&& post.dear_leader_board == pre.dear_leader_board
            &&& post.proposal_vote_history == pre.proposal_vote_history
            &&& post.dear_leader_account_factory == pre.dear_leader_account_factory
        })
    }

    /// Registers the caller as a boss, in the undelegated state. Fails if
    /// the caller already has a delegation edge.
    pub fn register_user_account(&mut self, sender: &String) -> (r: Result<
        Vec<WasmInstruction>,
        ContractError,
    >)
        requires
            old(self).wf(),
        ensures
            final(self).wf(),
            AssemblyState::register_user_account_post(*old(self), *final(self), sender@, r),
    {
        if self.find_boss(sender).is_some() {
            return Err(ContractError::UserAccountAlreadyRegister);
        }
        let entry = BossEntry { addr: sender.clone(), delegate: Option::None };
        proof {
            lemma_status_push(self.boss_vote_power@, entry);
        }
        self.boss_vote_power.push(entry);
        proof {
            self.lemma_wf_after_boss_change(*old(self), sender@);
        }
        Ok(Vec::new())
    }

    /// After a change that touched only the boss registry, and only at key
    /// `except`, well-formedness follows if the changed key's new status
    /// keeps the board consistent.
    proof fn lemma_wf_after_boss_change(self, pre: AssemblyState, except: Seq<char>)
        requires
            pre.wf(),
            self.dear_leader_board == pre.dear_leader_board,
            self.proposal_vote_history == pre.proposal_vote_history,
            bosses_unique(self.boss_vote_power@),
            statuses_agree_except(pre.boss_vote_power@, self.boss_vote_power@, except),
            // the changed address either keeps the status it had or is in
            // no delegator list under its old status
            match status_in(self.boss_vote_power@, except) {
                DelegationStatus::DelegatedTo(d) => status_in(pre.boss_vote_power@, except)
                    == DelegationStatus::DelegatedTo(d),
                _ => !(status_in(pre.boss_vote_power@, except)
                    matches DelegationStatus::DelegatedTo(_)),
            },
            // the changed entry's own edge, if any, is mirrored on the board
            forall|i: int|
                0 <= i < self.boss_vote_power@.len()
                    ==> match (#[trigger] self.boss_vote_power@[i]).delegate {
                        Option::None => true,
                        Option::Some(d) => board_has(self.dear_leader_board@, d@)
                            && delegators_in(self.dear_leader_board@, d@).contains(
                            self.boss_vote_power@[i].addr@,
                        ),
                    },
        ensures
            self.wf(),
    {
        assert forall|k: int, j: int|
            0 <= k < self.dear_leader_board@.len() && 0 <= j
                < self.dear_leader_board@[k].delegators@.len() implies status_in(
            self.boss_vote_power@,
            (#[trigger] self.dear_leader_board@[k].delegators@[j])@,
        ) == DelegationStatus::DelegatedTo(self.dear_leader_board@[k].dear_leader@) by {
            let c = self.dear_leader_board@[k].delegators@[j]@;
            assert(status_in(pre.boss_vote_power@, c) == DelegationStatus::DelegatedTo(
                self.dear_leader_board@[k].dear_leader@,
            ));
            if c != except {
                assert(status_in(self.boss_vote_power@, c) == status_in(pre.boss_vote_power@, c));
            }
        }
    }

    /// What [`AssemblyState::unregister_user_account`] promises.
    pub open spec fn unregister_user_account_post(
        pre: AssemblyState,
        post: AssemblyState,
        sender: Seq<char>,
        r: Result<Vec<WasmInstruction>, ContractError>,
    ) -> bool {
        &&& (pre.boss_status(sender) == DelegationStatus::Unregistered ==> r == Err::<
            Vec<WasmInstruction>,
            _,
        >(ContractError::AccountNotRegistered) && post == pre)
        &&& (pre.boss_status(sender) != DelegationStatus::Unregistered ==> {
            &&& r matches Ok(msgs) && msgs@.len() == 0
            &&& post.boss_status(sender) == DelegationStatus::Unregistered
            &&& statuses_agree_except(pre.boss_vote_power@, post.boss_vote_power@, sender)
            &&& post.proposal_vote_history == pre.proposal_vote_history
            &&& post.dear_leader_account_factory == pre.dear_leader_account_factory
            &&& match pre.boss_status(sender) {
                DelegationStatus::DelegatedTo(d) => {
                    &&& boards_agree_except(pre.dear_leader_board@, post.dear_leader_board@, d)
                    &&& post.is_dear_leader(d)
                    &&& post.delegators_of(d) == pre.delegators_of(d).remove_value(sender)
                },
                _ => post.dear_leader_board == pre.dear_leader_board,
            }
        })
    }

    /// Unregisters the caller as a boss, removing its delegation edge.
    /// If the caller was delegating, it is also dropped from its dear
    /// leader's delegator list, so the two registries stay consistent.
    /// Fails if no edge exists.
    pub fn unregister_user_account(&mut self, sender: &String) -> (r: Result<
        Vec<WasmInstruction>,
        ContractError,
    >)
        requires
            old(self).wf(),
        ensures
            final(self).wf(),
            AssemblyState::unregister_user_account_post(*old(self), *final(self), sender@, r),
    {
        let ghost s0 = *old(self);
        let idx = match self.find_boss(sender) {
            Option::Some(i) => i,
            Option::None => {
                return Err(ContractError::AccountNotRegistered);
            },
        };
        proof {
            lemma_boss_at_is(s0.boss_vote_power@, sender@, idx as int);
        }
        let ghost mut dlv: Option<Seq<char>> = Option::None;
        if self.boss_vote_power[idx].delegate.is_some() {
            let dl = match &self.boss_vote_power[idx].delegate {
                Option::Some(d) => d.clone(),
                Option::None => unreached(),
            };
            proof {
                dlv = Option::Some(dl@);
                assert(s0.boss_status(sender@) == DelegationStatus::DelegatedTo(dl@));
                assert(s0.is_dear_leader(dl@) && s0.delegators_of(dl@).contains(sender@));
            }
            self.remove_delegator(&dl, sender);
        } else {
            proof {
                assert(s0.boss_status(sender@) == DelegationStatus::Undelegated);
            }
        }
        let ghost s1 = *self;
        proof {
            lemma_status_remove(self.boss_vote_power@, idx as int);
        }
        self.boss_vote_power.remove(idx);
        proof {
            self.lemma_unregister_finish(s0, s1, sender@, idx as int, dlv);
        }
        Ok(Vec::new())
    }

    /// What [`AssemblyState::register_new_dear_leader`] promises.
    pub open spec fn register_new_dear_leader_post(
        pre: AssemblyState,
        post: AssemblyState,
        sender: Seq<char>,
        new_dear_leader_addr: Seq<char>,
        r: Result<Vec<WasmInstruction>, ContractError>,
    ) -> bool {
        &&& (sender != pre.dear_leader_account_factory@ ==> r == Err::<Vec<WasmInstruction>, _>(
            ContractError::Unauthorized,
        ) && post == pre)
        &&& (sender == pre.dear_leader_account_factory@ && pre.is_dear_leader(new_dear_leader_addr)
            ==> r == Err::<Vec<WasmInstruction>, _>(ContractError::AlreadyIsADearLeader) && post
            == pre)
        &&& (sender == pre.dear_leader_account_factory@ && !pre.is_dear_leader(
            new_dear_leader_addr,
        ) ==> {
            &&& r matches Ok(msgs) && msgs@.len() == 0
            &&& post.is_dear_leader(new_dear_leader_addr)
            &&& post.delegators_of(new_dear_leader_addr).len() == 0
            &&& boards_agree_except(
                pre.dear_leader_board@,
                post.dear_leader_board@,
                new_dear_leader_addr,
            )
            &&& post.boss_vote_power == pre.boss_vote_power
            &&& post.proposal_vote_history == pre.proposal_vote_history
            &&& post.dear_leader_account_factory == pre.dear_leader_account_factory
        })
    }

    /// Registers a freshly provisioned dear-leader account with an empty
    /// delegator list. Only the accounts factory may call this; fails if
    /// the address already sits on the board.
    pub fn register_new_dear_leader(&mut self, sender: &String, new_dear_leader_addr: String) -> (r:
        Result<Vec<WasmInstruction>, ContractError>)
        requires
            old(self).wf(),
        ensures
            final(self).wf(),
            AssemblyState::register_new_dear_leader_post(
                *old(self),
                *final(self),
                sender@,
                new_dear_leader_addr@,
                r,
            ),
    {
        if !crate::common::authorized(&self.dear_leader_account_factory, sender) {
            return Err(ContractError::Unauthorized);
        }
        if self.find_board(&new_dear_leader_addr).is_some() {
            return Err(ContractError::AlreadyIsADearLeader);
        }
        let entry = BoardEntry { dear_leader: new_dear_leader_addr, delegators: Vec::new() };
        proof {
            lemma_board_push(self.dear_leader_board@, entry);
        }
        self.dear_leader_board.push(entry);
        proof {
            let pre = *old(self);
            let post = *self;
            assert forall|i: int|
                0 <= i < post.boss_vote_power@.len() implies match (#[trigger] post.boss_vote_power@[i]).delegate {
                Option::None => true,
                Option::Some(d) => board_has(post.dear_leader_board@, d@) && delegators_in(
                    post.dear_leader_board@,
                    d@,
                ).contains(post.boss_vote_power@[i].addr@),
            } by {
                match post.boss_vote_power@[i].delegate {
                    Option::None => {},
                    Option::Some(d) => {
                        assert(board_has(pre.dear_leader_board@, d@));
                    },
                }
            }
        }
        Ok(Vec::new())
    }

    /// Well-formedness of the state left by a reclaim: `s0` is the state
    /// before, `s1` the state after the caller was dropped from its dear
    /// leader's list (if it had one), and `self` the state after the
    /// caller's edge was cleared.
    proof fn lemma_reclaim_finish(
        self,
        s0: AssemblyState,
        s1: AssemblyState,
        sender: Seq<char>,
        idx: int,
        dlv: Option<Seq<char>>,
    )
        requires
            s0.wf(),
            0 <= idx < s0.boss_vote_power@.len(),
            s0.boss_vote_power@[idx].addr@ == sender,
            match dlv {
                Option::None => s0.boss_vote_power@[idx].delegate is None,
                Option::Some(dl) => s0.boss_vote_power@[idx].delegate matches Option::Some(x)
                    && x@ == dl,
            },
            s1.boss_vote_power == s0.boss_vote_power,
            s1.proposal_vote_history == s0.proposal_vote_history,
            board_after_removal(s0, s1.dear_leader_board@, sender, dlv),
            self.dear_leader_board == s1.dear_leader_board,
            self.proposal_vote_history == s1.proposal_vote_history,
            self.boss_vote_power@ == s0.boss_vote_power@.update(
                idx,
                self.boss_vote_power@[idx],
            ),
            self.boss_vote_power@[idx].addr@ == sender,
            self.boss_vote_power@[idx].delegate is None,
        ensures
            self.wf(),
    {
        let b0 = s0.boss_vote_power@;
        let b2 = self.boss_vote_power@;
        lemma_boss_at_is(b0, sender, idx);
        lemma_status_update(b0, idx, b2[idx]);
        lemma_unlisted_after_removal(s0, s1.dear_leader_board@, sender, dlv);
        // edges of the untouched bosses are still mirrored on the board
        assert forall|i: int|
            0 <= i < b2.len() implies match (#[trigger] b2[i]).delegate {
            Option::None => true,
            Option::Some(d) => board_has(self.dear_leader_board@, d@) && delegators_in(
                self.dear_leader_board@,
                d@,
            ).contains(b2[i].addr@),
        } by {
            if i != idx {
                assert(b2[i] == b0[i]);
                match b2[i].delegate {
                    Option::None => {},
                    Option::Some(d) => {
                        let c = b2[i].addr@;
                        assert(c != sender) by {
                            if i < idx {
                                assert(b0[i].addr@ != b0[idx].addr@);
                            } else {
                                assert(b0[idx].addr@ != b0[i].addr@);
                            }
                        }
                        assert(board_has(s0.dear_leader_board@, d@) && delegators_in(
                            s0.dear_leader_board@,
                            d@,
                        ).contains(c));
                        match dlv {
                            Option::None => {},
                            Option::Some(dl) => {
                                if d@ == dl {
                                    assert(delegators_in(s1.dear_leader_board@, dl).contains(c));
                                } else {
                                    assert(delegators_in(s1.dear_leader_board@, d@)
                                        == delegators_in(s0.dear_leader_board@, d@));
                                }
                            },
                        }
                    },
                }
            }
        }
        // every listed delegator still points back
        assert forall|k: int, j: int|
            0 <= k < self.dear_leader_board@.len() && 0 <= j
                < self.dear_leader_board@[k].delegators@.len() implies status_in(
            b2,
            (#[trigger] self.dear_leader_board@[k].delegators@[j])@,
        ) == DelegationStatus::DelegatedTo(self.dear_leader_board@[k].dear_leader@) by {
            let c = self.dear_leader_board@[k].delegators@[j]@;
            assert(c != sender);
            assert(status_in(b0, c) == DelegationStatus::DelegatedTo(
                self.dear_leader_board@[k].dear_leader@,
            ));
            assert(status_in(b2, c) == status_in(b0, c));
        }
    }

    /// Well-formedness, and the board equations the contract promises, of
    /// the state left by a vote-power transfer: `s0` before, `s1` after
    /// the removal from the former dear leader's list, `s2` after the
    /// append to the target's list, `self` after the edge was re-pointed.
    proof fn lemma_transfer_finish(
        self,
        s0: AssemblyState,
        s1: AssemblyState,
        s2: AssemblyState,
        sender: Seq<char>,
        target: Seq<char>,
        idx: int,
        dlv: Option<Seq<char>>,
    )
        requires
            s0.wf(),
            0 <= idx < s0.boss_vote_power@.len(),
            s0.boss_vote_power@[idx].addr@ == sender,
            match dlv {
                Option::None => s0.boss_vote_power@[idx].delegate is None,
                Option::Some(dl) => s0.boss_vote_power@[idx].delegate matches Option::Some(x)
                    && x@ == dl,
            },
            s1.boss_vote_power == s0.boss_vote_power,
            s1.proposal_vote_history == s0.proposal_vote_history,
            board_after_removal(s0, s1.dear_leader_board@, sender, dlv),
            // what `add_delegator` left between `s1` and `s2`
            s2.boss_vote_power == s1.boss_vote_power,
            s2.proposal_vote_history == s1.proposal_vote_history,
            board_unique(s2.dear_leader_board@),
            board_has(s1.dear_leader_board@, target),
            forall|d: Seq<char>| #![trigger board_has(s2.dear_leader_board@, d)]
                board_has(s2.dear_leader_board@, d) == board_has(s1.dear_leader_board@, d),
            boards_agree_except(s1.dear_leader_board@, s2.dear_leader_board@, target),
            delegators_in(s2.dear_leader_board@, target) == delegators_in(
                s1.dear_leader_board@,
                target,
            ).push(sender),
            forall|k: int|
                0 <= k < s2.dear_leader_board@.len() ==> distinct_views(
                    (#[trigger] s2.dear_leader_board@[k]).delegators@,
                ),
            forall|k: int, j: int|
                0 <= k < s2.dear_leader_board@.len() && 0 <= j
                    < s2.dear_leader_board@[k].delegators@.len()
                    ==> ((#[trigger] s2.dear_leader_board@[k].delegators@[j])@ == sender
                    && s2.dear_leader_board@[k].dear_leader@ == target) || (0 <= k
                    < s1.dear_leader_board@.len() && j
                    < s1.dear_leader_board@[k].delegators@.len()
                    && s2.dear_leader_board@[k].delegators@[j]
                    == s1.dear_leader_board@[k].delegators@[j]
                    && s2.dear_leader_board@[k].dear_leader
                    == s1.dear_leader_board@[k].dear_leader),
            // what `set_boss_delegate` left
            self.dear_leader_board == s2.dear_leader_board,
            self.proposal_vote_history == s2.proposal_vote_history,
            self.boss_vote_power@ == s0.boss_vote_power@.update(
                idx,
                self.boss_vote_power@[idx],
            ),
            self.boss_vote_power@[idx].addr@ == sender,
            self.boss_vote_power@[idx].delegate matches Option::Some(t) && t@ == target,
        ensures
            self.wf(),
            status_in(self.boss_vote_power@, sender) == DelegationStatus::DelegatedTo(target),
            statuses_agree_except(s0.boss_vote_power@, self.boss_vote_power@, sender),
            forall|d: Seq<char>| #![trigger board_has(self.dear_leader_board@, d)]
                board_has(self.dear_leader_board@, d) == board_has(s0.dear_leader_board@, d),
            delegators_in(self.dear_leader_board@, target).contains(sender),
            match dlv {
                Option::None => boards_agree_except(
                    s0.dear_leader_board@,
                    self.dear_leader_board@,
                    target,
                ) && delegators_in(self.dear_leader_board@, target) == delegators_in(
                    s0.dear_leader_board@,
                    target,
                ).push(sender),
                Option::Some(d0) => if d0 == target {
                    boards_agree_except(s0.dear_leader_board@, self.dear_leader_board@, target)
                        && delegators_in(self.dear_leader_board@, target) == delegators_in(
                        s0.dear_leader_board@,
                        target,
                    ).remove_value(sender).push(sender)
                } else {
                    boards_agree_except2(
                        s0.dear_leader_board@,
                        self.dear_leader_board@,
                        d0,
                        target,
                    ) && delegators_in(self.dear_leader_board@, d0) == delegators_in(
                        s0.dear_leader_board@,
                        d0,
                    ).remove_value(sender) && delegators_in(self.dear_leader_board@, target)
                        == delegators_in(s0.dear_leader_board@, target).push(sender)
                },
            },
    {
        let b0 = s0.boss_vote_power@;
        let b2 = self.boss_vote_power@;
        let bd1 = s1.dear_leader_board@;
        let bd2 = s2.dear_leader_board@;
        lemma_boss_at_is(b0, sender, idx);
        lemma_status_update(b0, idx, b2[idx]);
        lemma_unlisted_after_removal(s0, bd1, sender, dlv);
        // the pushed element makes the target's new list contain the sender
        assert(delegators_in(bd2, target).contains(sender)) by {
            let n = delegators_in(bd1, target).len();
            assert(delegators_in(bd2, target)[n as int] == sender);
        }
        // membership of everything else carries over from s0 to s2
        assert forall|d: Seq<char>, c: Seq<char>|
            board_has(s0.dear_leader_board@, d) && c != sender && #[trigger] delegators_in(
                s0.dear_leader_board@,
                d,
            ).contains(c) implies #[trigger] delegators_in(bd2, d).contains(c) by {
            match dlv {
                Option::None => {},
                Option::Some(dl) => {
                    if d == dl {
                        assert(delegators_in(bd1, d).contains(c));
                    } else {
                        assert(delegators_in(bd1, d) == delegators_in(s0.dear_leader_board@, d));
                    }
                },
            }
            assert(delegators_in(bd1, d).contains(c));
            if d == target {
                let q = choose|q: int|
                    0 <= q < delegators_in(bd1, d).len() && delegators_in(bd1, d)[q] == c;
                assert(delegators_in(bd2, d)[q] == c);
            } else {
                assert(delegators_in(bd2, d) == delegators_in(bd1, d));
            }
        }
        // edges of the untouched bosses are still mirrored on the board
        assert forall|i: int|
            0 <= i < b2.len() implies match (#[trigger] b2[i]).delegate {
            Option::None => true,
            Option::Some(d) => board_has(self.dear_leader_board@, d@) && delegators_in(
                self.dear_leader_board@,
                d@,
            ).contains(b2[i].addr@),
        } by {
            if i != idx {
                assert(b2[i] == b0[i]);
                match b2[i].delegate {
                    Option::None => {},
                    Option::Some(d) => {
                        let c = b2[i].addr@;
                        assert(c != sender) by {
                            if i < idx {
                                assert(b0[i].addr@ != b0[idx].addr@);
                            } else {
                                assert(b0[idx].addr@ != b0[i].addr@);
                            }
                        }
                        assert(board_has(s0.dear_leader_board@, d@) && delegators_in(
                            s0.dear_leader_board@,
                            d@,
                        ).contains(c));
                    },
                }
            }
        }
        // every listed delegator still points back
        assert forall|k: int, j: int|
            0 <= k < bd2.len() && 0 <= j < bd2[k].delegators@.len() implies status_in(
            b2,
            (#[trigger] bd2[k].delegators@[j])@,
        ) == DelegationStatus::DelegatedTo(bd2[k].dear_leader@) by {
            let c = bd2[k].delegators@[j]@;
            if c == sender {
                // only the pushed pair lists the sender
                if !(bd2[k].dear_leader@ == target) {
                    assert(0 <= k < bd1.len() && j < bd1[k].delegators@.len()
                        && bd2[k].delegators@[j] == bd1[k].delegators@[j]);
                    assert(bd1[k].delegators@[j]@ != sender);
                }
                assert(bd2[k].dear_leader@ == target);
            } else {
                assert(0 <= k < bd1.len() && j < bd1[k].delegators@.len()
                    && bd2[k].delegators@[j] == bd1[k].delegators@[j]
                    && bd2[k].dear_leader == bd1[k].dear_leader);
                assert(status_in(b0, c) == DelegationStatus::DelegatedTo(bd1[k].dear_leader@));
                assert(status_in(b2, c) == status_in(b0, c));
            }
        }
        // the contract's board equations, case by case
        match dlv {
            Option::None => {
                assert(bd1 == s0.dear_leader_board@);
            },
            Option::Some(d0) => {
                if d0 == target {
                    assert(delegators_in(bd1, target) == delegators_in(
                        s0.dear_leader_board@,
                        target,
                    ).remove_value(sender));
                } else {
                    assert(delegators_in(bd2, d0) == delegators_in(bd1, d0));
                    assert(delegators_in(bd1, target) == delegators_in(
                        s0.dear_leader_board@,
                        target,
                    ));
                }
            },
        }
    }

    /// Well-formedness of the state left by an unregistration: `s0` is the
    /// state before, `s1` the state after the caller was dropped from its
    /// dear leader's list (if it had one), and `self` the state after the
    /// caller's own entry was removed.
    proof fn lemma_unregister_finish(
        self,
        s0: AssemblyState,
        s1: AssemblyState,
        sender: Seq<char>,
        idx: int,
        dlv: Option<Seq<char>>,
    )
        requires
            s0.wf(),
            0 <= idx < s0.boss_vote_power@.len(),
            s0.boss_vote_power@[idx].addr@ == sender,
            s1.boss_vote_power == s0.boss_vote_power,
            s1.proposal_vote_history == s0.proposal_vote_history,
            self.boss_vote_power@ == s1.boss_vote_power@.remove(idx),
            self.dear_leader_board == s1.dear_leader_board,
            self.proposal_vote_history == s1.proposal_vote_history,
            match dlv {
                Option::None => s0.boss_vote_power@[idx].delegate is None
                    && s1.dear_leader_board == s0.dear_leader_board,
                Option::Some(dl) => {
                    &&& s0.boss_vote_power@[idx].delegate matches Option::Some(x) && x@ == dl
                    &&& board_unique(s1.dear_leader_board@)
                    &&& boards_agree_except(s0.dear_leader_board@, s1.dear_leader_board@, dl)
                    &&& forall|d: Seq<char>| #![trigger board_has(s1.dear_leader_board@, d)]
                        board_has(s1.dear_leader_board@, d) == board_has(s0.dear_leader_board@, d)
                    &&& board_has(s1.dear_leader_board@, dl)
                    &&& !delegators_in(s1.dear_leader_board@, dl).contains(sender)
                    &&& forall|c: Seq<char>|
                        c != sender ==> #[trigger] delegators_in(s1.dear_leader_board@, dl).contains(
                            c,
                        ) == delegators_in(s0.dear_leader_board@, dl).contains(c)
                    &&& forall|k: int|
                        0 <= k < s1.dear_leader_board@.len() ==> distinct_views(
                            (#[trigger] s1.dear_leader_board@[k]).delegators@,
                        )
                    &&& forall|k: int, j: int|
                        0 <= k < s1.dear_leader_board@.len() && 0 <= j
                            < s1.dear_leader_board@[k].delegators@.len() ==> status_in(
                            s0.boss_vote_power@,
                            (#[trigger] s1.dear_leader_board@[k].delegators@[j])@,
                        ) == DelegationStatus::DelegatedTo(s1.dear_leader_board@[k].dear_leader@)
                },
            },
        ensures
            self.wf(),
    {
        let b0 = s0.boss_vote_power@;
        let b2 = self.boss_vote_power@;
        lemma_boss_at_is(b0, sender, idx);
        lemma_status_remove(b0, idx);
        b0.remove_ensures(idx);
        // each remaining boss entry is an old entry of another address
        assert forall|i: int| 0 <= i < b2.len() implies b2[i] == b0[if i < idx {
            i
        } else {
            i + 1
        }] && (#[trigger] b2[i]).addr@ != sender by {
            let i0 = if i < idx { i } else { i + 1 };
            assert(b2[i] == b0[i0]);
            if i0 < idx {
                assert(b0[i0].addr@ != b0[idx].addr@);
            } else {
                assert(b0[idx].addr@ != b0[i0].addr@);
            }
        }
        // the dropped boss sits on no delegator list of the new board
        assert forall|k: int, j: int|
            0 <= k < self.dear_leader_board@.len() && 0 <= j
                < self.dear_leader_board@[k].delegators@.len() implies (
        #[trigger] self.dear_leader_board@[k].delegators@[j])@ != sender by {
            let c = self.dear_leader_board@[k].delegators@[j]@;
            if c == sender {
                match dlv {
                    Option::None => {
                        assert(status_in(b0, c) == DelegationStatus::DelegatedTo(
                            s0.dear_leader_board@[k].dear_leader@,
                        ));
                        assert(status_in(b0, sender) == DelegationStatus::Undelegated);
                    },
                    Option::Some(dl) => {
                        assert(status_in(b0, c) == DelegationStatus::DelegatedTo(
                            s1.dear_leader_board@[k].dear_leader@,
                        ));
                        assert(status_in(b0, sender) == DelegationStatus::DelegatedTo(dl));
                        let dlk = s1.dear_leader_board@[k].dear_leader@;
                        assert(dlk == dl);
                        lemma_board_at_is(s1.dear_leader_board@, dl, k);
                        assert(delegators_in(s1.dear_leader_board@, dl) == views_of(
                            s1.dear_leader_board@[k].delegators@,
                        ));
                        assert(views_of(s1.dear_leader_board@[k].delegators@)[j] == sender);
                        assert(delegators_in(s1.dear_leader_board@, dl).contains(sender));
                    },
                }
            }
        }
        // edges of the remaining bosses are still mirrored on the board
        assert forall|i: int|
            0 <= i < b2.len() implies match (#[trigger] b2[i]).delegate {
            Option::None => true,
            Option::Some(d) => board_has(self.dear_leader_board@, d@) && delegators_in(
                self.dear_leader_board@,
                d@,
            ).contains(b2[i].addr@),
        } by {
            match b2[i].delegate {
                Option::None => {},
                Option::Some(d) => {
                    let c = b2[i].addr@;
                    assert(board_has(s0.dear_leader_board@, d@) && delegators_in(
                        s0.dear_leader_board@,
                        d@,
                    ).contains(c));
                    match dlv {
                        Option::None => {},
                        Option::Some(dl) => {
                            if d@ == dl {
                                assert(delegators_in(s1.dear_leader_board@, dl).contains(c));
                            } else {
                                assert(delegators_in(s1.dear_leader_board@, d@) == delegators_in(
                                    s0.dear_leader_board@,
                                    d@,
                                ));
                            }
                        },
                    }
                },
            }
        }
        // every listed delegator still points back
        assert forall|k: int, j: int|
            0 <= k < self.dear_leader_board@.len() && 0 <= j
                < self.dear_leader_board@[k].delegators@.len() implies status_in(
            b2,
            (#[trigger] self.dear_leader_board@[k].delegators@[j])@,
        ) == DelegationStatus::DelegatedTo(self.dear_leader_board@[k].dear_leader@) by {
            let c = self.dear_leader_board@[k].delegators@[j]@;
            assert(c != sender);
            assert(status_in(b0, c) == DelegationStatus::DelegatedTo(
                self.dear_leader_board@[k].dear_leader@,
            ));
            assert(status_in(b2, c) == status_in(b0, c));
        }
    }

    /// What [`AssemblyState::transfer_vote_power`] promises.
    pub open spec fn transfer_vote_power_post(
        pre: AssemblyState,
        post: AssemblyState,
        sender: Seq<char>,
        dear_leader_addr: Seq<char>,
        dear_leader_addr_is_valid: bool,
        r: Result<Vec<WasmInstruction>, ContractError>,
    ) -> bool {
        &&& (!dear_leader_addr_is_valid ==> r == Err::<Vec<WasmInstruction>, _>(
            ContractError::InvalidDearLeader,
        ) && post == pre)
        &&& (dear_leader_addr_is_valid && !pre.is_dear_leader(dear_leader_addr) ==> r == Err::<
            Vec<WasmInstruction>,
            _,
        >(ContractError::DearLeaderNotRegistered) && post == pre)
        &&& (dear_leader_addr_is_valid && pre.is_dear_leader(dear_leader_addr) && pre.boss_status(
            sender,
        ) == DelegationStatus::Unregistered ==> r == Err::<Vec<WasmInstruction>, _>(
            ContractError::AccountNotRegistered,
        ) && post == pre)
        &&& (dear_leader_addr_is_valid && pre.is_dear_leader(dear_leader_addr) && pre.boss_status(
            sender,
        ) != DelegationStatus::Unregistered ==> {
            &&& r matches Ok(msgs) && msgs@.len() == 0
            &&& post.boss_status(sender) == DelegationStatus::DelegatedTo(dear_leader_addr)
            &&& statuses_agree_except(pre.boss_vote_power@, post.boss_vote_power@, sender)
            &&& post.proposal_vote_history == pre.proposal_vote_history
            &&& post.dear_leader_account_factory == pre.dear_leader_account_factory
            &&& forall|d: Seq<char>| #![trigger post.is_dear_leader(d)]
                post.is_dear_leader(d) == pre.is_dear_leader(d)
            &&& post.delegators_of(dear_leader_addr).contains(sender)
            &&& match pre.boss_status(sender) {
                DelegationStatus::Undelegated => boards_agree_except(
                    pre.dear_leader_board@,
                    post.dear_leader_board@,
                    dear_leader_addr,
                ) && post.delegators_of(dear_leader_addr) == pre.delegators_of(
                    dear_leader_addr,
                ).push(sender),
                DelegationStatus::DelegatedTo(d0) => if d0 == dear_leader_addr {
                    boards_agree_except(
                        pre.dear_leader_board@,
                        post.dear_leader_board@,
                        dear_leader_addr,
                    ) && post.delegators_of(dear_leader_addr) == pre.delegators_of(
                        dear_leader_addr,
                    ).remove_value(sender).push(sender)
                } else {
                    boards_agree_except2(
                        pre.dear_leader_board@,
                        post.dear_leader_board@,
                        d0,
                        dear_leader_addr,
                    ) && post.delegators_of(d0) == pre.delegators_of(d0).remove_value(sender)
                        && post.delegators_of(dear_leader_addr) == pre.delegators_of(
                        dear_leader_addr,
                    ).push(sender)
                },
                DelegationStatus::Unregistered => false,
            }
        })
    }

    /// Re-points the caller's vote power at a (registered) dear leader.
    /// The caller is dropped from its former dear leader's delegator list,
    /// if it had one, appended to the target's list, and its edge is set to
    /// the target. `dear_leader_addr_is_valid` is the host's verdict on the
    /// target address's well-formedness, checked before anything else.
    pub fn transfer_vote_power(
        &mut self,
        sender: &String,
        dear_leader_addr: &String,
        dear_leader_addr_is_valid: bool,
    ) -> (r: Result<Vec<WasmInstruction>, ContractError>)
        requires
            old(self).wf(),
        ensures
            final(self).wf(),
            AssemblyState::transfer_vote_power_post(
                *old(self),
                *final(self),
                sender@,
                dear_leader_addr@,
                dear_leader_addr_is_valid,
                r,
            ),
    {
        let ghost s0 = *old(self);
        if !dear_leader_addr_is_valid {
            return Err(ContractError::InvalidDearLeader);
        }
        if self.find_board(dear_leader_addr).is_none() {
            return Err(ContractError::DearLeaderNotRegistered);
        }
        let idx = match self.find_boss(sender) {
            Option::Some(i) => i,
            Option::None => {
                return Err(ContractError::AccountNotRegistered);
            },
        };
        proof {
            lemma_boss_at_is(s0.boss_vote_power@, sender@, idx as int);
        }
        let ghost mut dlv: Option<Seq<char>> = Option::None;
        if self.boss_vote_power[idx].delegate.is_some() {
            let dcur = match &self.boss_vote_power[idx].delegate {
                Option::Some(d) => d.clone(),
                Option::None => unreached(),
            };
            proof {
                dlv = Option::Some(dcur@);
                assert(s0.boss_status(sender@) == DelegationStatus::DelegatedTo(dcur@));
                assert(s0.is_dear_leader(dcur@) && s0.delegators_of(dcur@).contains(sender@));
            }
            self.remove_delegator(&dcur, sender);
        }
        let ghost s1 = *self;
        proof {
            assert(board_has(s1.dear_leader_board@, dear_leader_addr@));
            assert(!delegators_in(s1.dear_leader_board@, dear_leader_addr@).contains(sender@)) by {
                match dlv {
                    Option::None => {
                        if delegators_in(s0.dear_leader_board@, dear_leader_addr@).contains(
                            sender@,
                        ) {
                            lemma_listed_status(s0, dear_leader_addr@, sender@);
                        }
                    },
                    Option::Some(d0) => {
                        if d0 != dear_leader_addr@ {
                            assert(delegators_in(s1.dear_leader_board@, dear_leader_addr@)
                                == delegators_in(s0.dear_leader_board@, dear_leader_addr@));
                            if delegators_in(s0.dear_leader_board@, dear_leader_addr@).contains(
                                sender@,
                            ) {
                                lemma_listed_status(s0, dear_leader_addr@, sender@);
                            }
                        }
                    },
                }
            }
        }
        self.add_delegator(dear_leader_addr, sender);
        let ghost s2 = *self;
        self.set_boss_delegate(idx, Option::Some(dear_leader_addr.clone()));
        proof {
            lemma_status_update(
                s0.boss_vote_power@,
                idx as int,
                self.boss_vote_power@[idx as int],
            );
            self.lemma_transfer_finish(s0, s1, s2, sender@, dear_leader_addr@, idx as int, dlv);
        }
        Ok(Vec::new())
    }

    /// What [`AssemblyState::reclaim_vote_power`] promises.
    pub open spec fn reclaim_vote_power_post(
        pre: AssemblyState,
        post: AssemblyState,
        sender: Seq<char>,
        r: Result<Vec<WasmInstruction>, ContractError>,
    ) -> bool {
        &&& (pre.boss_status(sender) == DelegationStatus::Unregistered ==> r == Err::<
            Vec<WasmInstruction>,
            _,
        >(ContractError::AccountNotRegistered) && post == pre)
        &&& (pre.boss_status(sender) != DelegationStatus::Unregistered ==> {
            &&& r matches Ok(msgs) && msgs@.len() == 0
            &&& post.boss_status(sender) == DelegationStatus::Undelegated
            &&& statuses_agree_except(pre.boss_vote_power@, post.boss_vote_power@, sender)
            &&& post.proposal_vote_history == pre.proposal_vote_history
            &&& post.dear_leader_account_factory == pre.dear_leader_account_factory
            &&& forall|d: Seq<char>| #![trigger post.is_dear_leader(d)]
                post.is_dear_leader(d) == pre.is_dear_leader(d)
            &&& match pre.boss_status(sender) {
                DelegationStatus::DelegatedTo(d0) => boards_agree_except(
                    pre.dear_leader_board@,
                    post.dear_leader_board@,
                    d0,
                ) && post.delegators_of(d0) == pre.delegators_of(d0).remove_value(sender),
                _ => post.dear_leader_board == pre.dear_leader_board,
            }
        })
    }

    /// Clears the caller's delegation edge, dropping it from its former
    /// dear leader's delegator list so the registries stay consistent.
    /// Fails if the caller has no edge.
    pub fn reclaim_vote_power(&mut self, sender: &String) -> (r: Result<
        Vec<WasmInstruction>,
        ContractError,
    >)
        requires
            old(self).wf(),
        ensures
            final(self).wf(),
            AssemblyState::reclaim_vote_power_post(*old(self), *final(self), sender@, r),
    {
        let ghost s0 = *old(self);
        let idx = match self.find_boss(sender) {
            Option::Some(i) => i,
            Option::None => {
                return Err(ContractError::AccountNotRegistered);
            },
        };
        proof {
            lemma_boss_at_is(s0.boss_vote_power@, sender@, idx as int);
        }
        let ghost mut dlv: Option<Seq<char>> = Option::None;
        if self.boss_vote_power[idx].delegate.is_some() {
            let dcur = match &self.boss_vote_power[idx].delegate {
                Option::Some(d) => d.clone(),
                Option::None => unreached(),
            };
            proof {
                dlv = Option::Some(dcur@);
                assert(s0.boss_status(sender@) == DelegationStatus::DelegatedTo(dcur@));
                assert(s0.is_dear_leader(dcur@) && s0.delegators_of(dcur@).contains(sender@));
            }
            self.remove_delegator(&dcur, sender);
        }
        let ghost s1 = *self;
        self.set_boss_delegate(idx, Option::None);
        proof {
            lemma_status_update(
                s0.boss_vote_power@,
                idx as int,
                self.boss_vote_power@[idx as int],
            );
            self.lemma_reclaim_finish(s0, s1, sender@, idx as int, dlv);
        }
        Ok(Vec::new())
    }

    /// Rewrites the delegation edge of the boss entry at `i`, leaving its
    /// address and everything else in the state alone.
    fn set_boss_delegate(&mut self, i: usize, delegate: Option<String>)
        requires
            i < old(self).boss_vote_power@.len(),
        ensures
            final(self).boss_vote_power@.len() == old(self).boss_vote_power@.len(),
            forall|q: int|
                0 <= q < old(self).boss_vote_power@.len() && q != i
                    ==> final(self).boss_vote_power@[q] == old(self).boss_vote_power@[q],
            final(self).boss_vote_power@[i as int].addr == old(self).boss_vote_power@[i as int].addr,
            final(self).boss_vote_power@[i as int].delegate == delegate,
            final(self).boss_vote_power@ == old(self).boss_vote_power@.update(
                i as int,
                final(self).boss_vote_power@[i as int],
            ),
            final(self).dear_leader_board == old(self).dear_leader_board,
            final(self).proposal_vote_history == old(self).proposal_vote_history,
            final(self).dear_leader_account_factory == old(self).dear_leader_account_factory,
    {
        let mut entry = self.boss_vote_power.remove(i);
        entry.delegate = delegate;
        let ghost new_entry = entry;
        self.boss_vote_power.insert(i, entry);
        proof {
            lemma_remove_insert(old(self).boss_vote_power@, i as int, new_entry);
        }
    }

    /// Appends `b` to `dl`'s delegator list. Callers must know `b` is not
    /// yet listed there, so lists stay duplicate-free.
    fn add_delegator(&mut self, dl: &String, b: &String)
        requires
            board_unique(old(self).dear_leader_board@),
            board_has(old(self).dear_leader_board@, dl@),
            !delegators_in(old(self).dear_leader_board@, dl@).contains(b@),
            forall|k: int|
                0 <= k < old(self).dear_leader_board@.len() ==> distinct_views(
                    (#[trigger] old(self).dear_leader_board@[k]).delegators@,
                ),
        ensures
            final(self).boss_vote_power == old(self).boss_vote_power,
            final(self).proposal_vote_history == old(self).proposal_vote_history,
            final(self).dear_leader_account_factory == old(self).dear_leader_account_factory,
            board_unique(final(self).dear_leader_board@),
            forall|d: Seq<char>| #![trigger board_has(final(self).dear_leader_board@, d)]
                board_has(final(self).dear_leader_board@, d) == board_has(
                    old(self).dear_leader_board@,
                    d,
                ),
            boards_agree_except(old(self).dear_leader_board@, final(self).dear_leader_board@, dl@),
            final(self).delegators_of(dl@) == old(self).delegators_of(dl@).push(b@),
            forall|k: int|
                0 <= k < final(self).dear_leader_board@.len() ==> distinct_views(
                    (#[trigger] final(self).dear_leader_board@[k]).delegators@,
                ),
            // every listed delegator of the new board is an old one, or the
            // new pair itself
            forall|k: int, j: int|
                0 <= k < final(self).dear_leader_board@.len() && 0 <= j
                    < final(self).dear_leader_board@[k].delegators@.len()
                    ==> ((#[trigger] final(self).dear_leader_board@[k].delegators@[j])@ == b@
                    && final(self).dear_leader_board@[k].dear_leader@ == dl@) || (0 <= k < old(
                    self,
                ).dear_leader_board@.len() && j < old(self).dear_leader_board@[k].delegators@.len()
                    && final(self).dear_leader_board@[k].delegators@[j] == old(
                    self,
                ).dear_leader_board@[k].delegators@[j] && final(self).dear_leader_board@[k].dear_leader
                    == old(self).dear_leader_board@[k].dear_leader),
    {
        let d_idx = match self.find_board(dl) {
            Option::Some(i) => i,
            Option::None => unreached(),
        };
        proof {
            lemma_board_at_is(self.dear_leader_board@, dl@, d_idx as int);
        }
        let ghost old_list = self.dear_leader_board@[d_idx as int].delegators@;
        let mut entry = self.dear_leader_board.remove(d_idx);
        entry.delegators.push(b.clone());
        let ghost new_entry = entry;
        self.dear_leader_board.insert(d_idx, entry);
        proof {
            lemma_remove_insert(old(self).dear_leader_board@, d_idx as int, new_entry);
            lemma_board_update(old(self).dear_leader_board@, d_idx as int, new_entry);
            assert(views_of(new_entry.delegators@) =~= views_of(old_list).push(b@)) by {
                assert forall|q: int| 0 <= q < old_list.len() + 1 implies views_of(
                    new_entry.delegators@,
                )[q] == views_of(old_list).push(b@)[q] by {
                    if q < old_list.len() {
                        assert(new_entry.delegators@[q] == old_list[q]);
                    } else {
                        assert(new_entry.delegators@[q] == new_entry.delegators@.last());
                    }
                }
            }
            assert forall|k: int|
                0 <= k < self.dear_leader_board@.len() implies distinct_views(
                (#[trigger] self.dear_leader_board@[k]).delegators@,
            ) by {
                if k == d_idx as int {
                    assert forall|p: int, q: int|
                        0 <= p < q < new_entry.delegators@.len() implies (
                    #[trigger] new_entry.delegators@[p])@ != (#[trigger] new_entry.delegators@[q])@ by {
                        if q == old_list.len() {
                            assert(new_entry.delegators@[q]@ == b@);
                            assert(new_entry.delegators@[p] == old_list[p]);
                            if old_list[p]@ == b@ {
                                assert(views_of(old_list)[p] == b@);
                                assert(delegators_in(old(self).dear_leader_board@, dl@).contains(
                                    b@,
                                ));
                            }
                        } else {
                            assert(new_entry.delegators@[p] == old_list[p]);
                            assert(new_entry.delegators@[q] == old_list[q]);
                        }
                    }
                } else {
                    assert(self.dear_leader_board@[k] == old(self).dear_leader_board@[k]);
                }
            }
        }
    }

    /// Drops `b` from `dl`'s delegator list. Callers must know `b` is
    /// listed there; the board entry itself stays, possibly empty.
    fn remove_delegator(&mut self, dl: &String, b: &String)
        requires
            old(self).wf(),
            old(self).is_dear_leader(dl@),
            old(self).delegators_of(dl@).contains(b@),
        ensures
            final(self).boss_vote_power == old(self).boss_vote_power,
            final(self).proposal_vote_history == old(self).proposal_vote_history,
            final(self).dear_leader_account_factory == old(self).dear_leader_account_factory,
            board_unique(final(self).dear_leader_board@),
            boards_agree_except(old(self).dear_leader_board@, final(self).dear_leader_board@, dl@),
            forall|d: Seq<char>| #![trigger board_has(final(self).dear_leader_board@, d)]
                board_has(final(self).dear_leader_board@, d) == board_has(
                    old(self).dear_leader_board@,
                    d,
                ),
            final(self).is_dear_leader(dl@),
            final(self).delegators_of(dl@) == old(self).delegators_of(dl@).remove_value(b@),
            !final(self).delegators_of(dl@).contains(b@),
            forall|c: Seq<char>|
                c != b@ ==> #[trigger] final(self).delegators_of(dl@).contains(c) == old(
                    self,
                ).delegators_of(dl@).contains(c),
            forall|k: int|
                0 <= k < final(self).dear_leader_board@.len() ==> distinct_views(
                    (#[trigger] final(self).dear_leader_board@[k]).delegators@,
                ),
            forall|k: int, j: int|
                0 <= k < final(self).dear_leader_board@.len() && 0 <= j
                    < final(self).dear_leader_board@[k].delegators@.len()
                    ==> status_in(
                        final(self).boss_vote_power@,
                        (#[trigger] final(self).dear_leader_board@[k].delegators@[j])@,
                    ) == DelegationStatus::DelegatedTo(
                        final(self).dear_leader_board@[k].dear_leader@,
                    ),
    {
        let d_idx = match self.find_board(dl) {
            Option::Some(i) => i,
            Option::None => unreached(),
        };
        proof {
            lemma_board_at_is(self.dear_leader_board@, dl@, d_idx as int);
        }
        let ghost old_list = self.dear_leader_board@[d_idx as int].delegators@;
        let mut entry = self.dear_leader_board.remove(d_idx);
        let n = entry.delegators.len();
        let mut j: usize = 0;
        let mut found: usize = 0;
        let mut found_any = false;
        while j < n
            invariant
                n == entry.delegators@.len(),
                j <= n,
                entry.delegators@ == old_list,
                !found_any ==> forall|q: int| 0 <= q < j ==> (#[trigger] old_list[q])@ != b@,
                found_any ==> found < j && old_list[found as int]@ == b@,
            decreases n - j,
        {
            if !found_any && entry.delegators[j] == *b {
                found = j;
                found_any = true;
            }
            j += 1;
        }
        proof {
            if !found_any {
                assert forall|q: int| 0 <= q < old_list.len() implies (#[trigger] old_list[q])@
                    != b@ by {}
                assert(views_of(old_list).contains(b@)) by {
                    assert(old(self).delegators_of(dl@) == views_of(old_list));
                }
                let w = choose|w: int| 0 <= w < views_of(old_list).len() && views_of(old_list)[w]
                    == b@;
                assert(old_list[w]@ == b@);
                assert(false);
            }
        }
        entry.delegators.remove(found);
        proof {
            lemma_views_remove(old_list, found as int, b@);
        }
        let ghost new_entry = entry;
        self.dear_leader_board.insert(d_idx, entry);
        proof {
            let a = old(self).dear_leader_board@;
            let d = d_idx as int;
            assert(self.dear_leader_board@ =~= a.update(d, new_entry)) by {
                a.remove_ensures(d);
                a.remove(d).insert_ensures(d, new_entry);
                assert forall|q: int| 0 <= q < a.len() implies self.dear_leader_board@[q]
                    == a.update(d, new_entry)[q] by {
                    if q < d {
                        assert(a.remove(d).insert(d, new_entry)[q] == a.remove(d)[q]);
                    } else if q > d {
                        assert(a.remove(d).insert(d, new_entry)[q] == a.remove(d)[q - 1]);
                        assert(a.remove(d)[q - 1] == a[q]);
                    }
                }
            }
            lemma_board_update(a, d, new_entry);
            assert forall|k: int, j2: int|
                0 <= k < self.dear_leader_board@.len() && 0 <= j2
                    < self.dear_leader_board@[k].delegators@.len() implies status_in(
                self.boss_vote_power@,
                (#[trigger] self.dear_leader_board@[k].delegators@[j2])@,
            ) == DelegationStatus::DelegatedTo(self.dear_leader_board@[k].dear_leader@) by {
                if k == d_idx as int {
                    assert(self.dear_leader_board@[k].delegators@ == old_list.remove(
                        found as int,
                    ));
                    old_list.remove_ensures(found as int);
                    let j0 = if j2 < found as int { j2 } else { j2 + 1 };
                    assert(self.dear_leader_board@[k].delegators@[j2] == old_list[j0]);
                    assert(status_in(
                        old(self).boss_vote_power@,
                        old_list[j0]@,
                    ) == DelegationStatus::DelegatedTo(dl@));
                    assert(self.dear_leader_board@[k].dear_leader@ == dl@);
                } else {
                    assert(self.dear_leader_board@[k] == old(self).dear_leader_board@[k]);
                }
            }
            assert forall|k: int|
                0 <= k < self.dear_leader_board@.len() implies distinct_views(
                (#[trigger] self.dear_leader_board@[k]).delegators@,
            ) by {
                if k == d_idx as int {
                    assert(distinct_views(old_list.remove(found as int)));
                } else {
                    assert(self.dear_leader_board@[k] == old(self).dear_leader_board@[k]);
                }
            }
        }
    }
}

/// Appending to a list appends its view.
proof fn lemma_views_push(list: Seq<String>, x: String)
    ensures
        views_of(list.push(x)) =~= views_of(list).push(x@),
{
    assert forall|q: int| 0 <= q < list.len() + 1 implies views_of(list.push(x))[q] == views_of(
        list,
    ).push(x@)[q] by {
        if q < list.len() {
            assert(list.push(x)[q] == list[q]);
        } else {
            assert(list.push(x)[q] == x);
        }
    }
}

/// One step into a suffix: dropping the head of `skip(i)` gives `skip(i+1)`.
proof fn lemma_skip_step<T>(s: Seq<T>, i: int)
    requires
        0 <= i < s.len(),
    ensures
        s.skip(i).len() == s.len() - i,
        s.skip(i)[0] == s[i],
        s.skip(i).drop_first() =~= s.skip(i + 1),
{
    assert forall|q: int| 0 <= q < s.len() - i - 1 implies s.skip(i).drop_first()[q] == s.skip(
        i + 1,
    )[q] by {
        assert(s.skip(i).drop_first()[q] == s.skip(i)[q + 1]);
        assert(s.skip(i)[q + 1] == s[i + 1 + q]);
        assert(s.skip(i + 1)[q] == s[i + 1 + q]);
    }
}

/// Appending a record for a fresh proposal leaves every other proposal's
/// history alone.
proof fn lemma_record_push(s: Seq<VoteRecord>, e: VoteRecord)
    requires
        records_unique(s),
        !record_has(s, e.proposal_id),
    ensures
        records_unique(s.push(e)),
        records_agree_except(s, s.push(e), e.proposal_id),
        record_has(s.push(e), e.proposal_id),
        record_at(s.push(e), e.proposal_id) == s.len(),
        voters_in(s.push(e), e.proposal_id) == views_of(e.voters@),
{
    let t = s.push(e);
    assert forall|i: int, j: int| 0 <= i < j < t.len() implies (#[trigger] t[i]).proposal_id
        != (#[trigger] t[j]).proposal_id by {
        if j < s.len() {
            assert(t[i] == s[i] && t[j] == s[j]);
        } else {
            assert(t[j] == e);
            assert(t[i] == s[i]);
            if s[i].proposal_id == e.proposal_id {
                assert(record_has(s, e.proposal_id));
            }
        }
    }
    lemma_record_at_is(t, e.proposal_id, s.len() as int);
    assert forall|q: u64|
        #![trigger record_has(s, q)]
        #![trigger record_has(t, q)]
    q != e.proposal_id implies record_has(s, q) == record_has(t, q) by {
        if record_has(s, q) {
            let i = record_at(s, q);
            assert(t[i] == s[i]);
            assert(record_has(t, q));
        } else if record_has(t, q) {
            let i = record_at(t, q);
            if i < s.len() {
                assert(t[i] == s[i]);
                assert(record_has(s, q));
            } else {
                assert(t[i] == e);
            }
        }
    }
    assert forall|q: u64|
        #![trigger voters_in(s, q)]
        #![trigger voters_in(t, q)]
    q != e.proposal_id && record_has(s, q) implies voters_in(s, q) == voters_in(t, q) by {
        let i = record_at(s, q);
        assert(0 <= i < s.len() && s[i].proposal_id == q);
        assert(t[i] == s[i]);
        lemma_record_at_is(t, q, i);
    }
}

/// Replacing a proposal's record in place, same id, leaves every other
/// proposal's history alone.
proof fn lemma_record_update(s: Seq<VoteRecord>, i: int, e: VoteRecord)
    requires
        records_unique(s),
        0 <= i < s.len(),
        s[i].proposal_id == e.proposal_id,
    ensures
        records_unique(s.update(i, e)),
        records_agree_except(s, s.update(i, e), e.proposal_id),
        record_has(s.update(i, e), e.proposal_id),
        record_at(s.update(i, e), e.proposal_id) == i,
        voters_in(s.update(i, e), e.proposal_id) == views_of(e.voters@),
{
    let t = s.update(i, e);
    assert forall|p: int, q: int| 0 <= p < q < t.len() implies (#[trigger] t[p]).proposal_id
        != (#[trigger] t[q]).proposal_id by {
        assert(s[p].proposal_id != s[q].proposal_id);
        assert(t[p] == if p == i { e } else { s[p] });
        assert(t[q] == if q == i { e } else { s[q] });
    }
    lemma_record_at_is(t, e.proposal_id, i);
    assert forall|q: u64|
        #![trigger record_has(s, q)]
        #![trigger record_has(t, q)]
    q != e.proposal_id implies record_has(s, q) == record_has(t, q) by {
        if record_has(s, q) {
            let p = record_at(s, q);
            assert(p != i);
            assert(t[p] == s[p]);
            assert(record_has(t, q));
        } else if record_has(t, q) {
            let p = record_at(t, q);
            assert(p != i);
            assert(t[p] == s[p]);
            assert(record_has(s, q));
        }
    }
    assert forall|q: u64|
        #![trigger voters_in(s, q)]
        #![trigger voters_in(t, q)]
    q != e.proposal_id && record_has(s, q) implies voters_in(s, q) == voters_in(t, q) by {
        let p = record_at(s, q);
        assert(0 <= p < s.len() && s[p].proposal_id == q);
        assert(p != i);
        assert(t[p] == s[p]);
        lemma_record_at_is(t, q, p);
    }
}

/// Whether some element of the list reads as the address `x`.
fn list_contains(list: &Vec<String>, x: &String) -> (r: bool)
    ensures
        r == views_of(list@).contains(x@),
{
    let n = list.len();
    let mut i: usize = 0;
    while i < n
        invariant
            n == list@.len(),
            i <= n,
            forall|j: int| 0 <= j < i ==> (#[trigger] list@[j])@ != x@,
        decreases n - i,
    {
        if list[i] == *x {
            proof {
                assert(views_of(list@)[i as int] == x@);
            }
            return true;
        }
        i += 1;
    }
    proof {
        if views_of(list@).contains(x@) {
            let w = choose|w: int| 0 <= w < views_of(list@).len() && views_of(list@)[w] == x@;
            assert(list@[w]@ == x@);
        }
    }
    false
}

/// In a well-formed state, an address listed on `d`'s board delegates to `d`.
proof fn lemma_listed_status(s: AssemblyState, d: Seq<char>, b: Seq<char>)
    requires
        s.wf(),
        s.is_dear_leader(d),
        s.delegators_of(d).contains(b),
    ensures
        s.boss_status(b) == DelegationStatus::DelegatedTo(d),
{
    let k = board_at(s.dear_leader_board@, d);
    assert(0 <= k < s.dear_leader_board@.len() && s.dear_leader_board@[k].dear_leader@ == d);
    let vs = views_of(s.dear_leader_board@[k].delegators@);
    let j = choose|j: int| 0 <= j < vs.len() && vs[j] == b;
    assert(s.dear_leader_board@[k].delegators@[j]@ == b);
    assert(status_in(s.boss_vote_power@, b) == DelegationStatus::DelegatedTo(
        s.dear_leader_board@[k].dear_leader@,
    ));
}

/// The relation `remove_delegator` leaves between the old state and the
/// new board: either nothing moved, or exactly `sender` left `dl`'s list.
spec fn board_after_removal(
    s0: AssemblyState,
    b1: Seq<BoardEntry>,
    sender: Seq<char>,
    dlv: Option<Seq<char>>,
) -> bool {
    match dlv {
        Option::None => b1 == s0.dear_leader_board@,
        Option::Some(dl) => {
            &&& board_unique(b1)
            &&& boards_agree_except(s0.dear_leader_board@, b1, dl)
            &&& forall|d: Seq<char>| #![trigger board_has(b1, d)]
                board_has(b1, d) == board_has(s0.dear_leader_board@, d)
            &&& board_has(b1, dl)
            &&& !delegators_in(b1, dl).contains(sender)
            &&& delegators_in(b1, dl) == delegators_in(s0.dear_leader_board@, dl).remove_value(
                sender,
            )
            &&& forall|c: Seq<char>|
                c != sender ==> #[trigger] delegators_in(b1, dl).contains(c) == delegators_in(
                    s0.dear_leader_board@,
                    dl,
                ).contains(c)
            &&& forall|k: int|
                0 <= k < b1.len() ==> distinct_views((#[trigger] b1[k]).delegators@)
            &&& forall|k: int, j: int|
                0 <= k < b1.len() && 0 <= j < b1[k].delegators@.len() ==> status_in(
                    s0.boss_vote_power@,
                    (#[trigger] b1[k].delegators@[j])@,
                ) == DelegationStatus::DelegatedTo(b1[k].dear_leader@)
        },
    }
}

/// After `remove_delegator`, the departing boss sits on no delegator list
/// at all, and every listed delegator still points back at its board key.
proof fn lemma_unlisted_after_removal(
    s0: AssemblyState,
    b1: Seq<BoardEntry>,
    sender: Seq<char>,
    dlv: Option<Seq<char>>,
)
    requires
        s0.wf(),
        board_after_removal(s0, b1, sender, dlv),
        match dlv {
            Option::None => !(status_in(s0.boss_vote_power@, sender)
                matches DelegationStatus::DelegatedTo(_)),
            Option::Some(dl) => status_in(s0.boss_vote_power@, sender)
                == DelegationStatus::DelegatedTo(dl),
        },
    ensures
        forall|k: int, j: int|
            0 <= k < b1.len() && 0 <= j < b1[k].delegators@.len() ==> (
            #[trigger] b1[k].delegators@[j])@ != sender,
        forall|k: int, j: int|
            0 <= k < b1.len() && 0 <= j < b1[k].delegators@.len() ==> status_in(
                s0.boss_vote_power@,
                (#[trigger] b1[k].delegators@[j])@,
            ) == DelegationStatus::DelegatedTo(b1[k].dear_leader@),
        forall|k: int| 0 <= k < b1.len() ==> distinct_views((#[trigger] b1[k]).delegators@),
        board_unique(b1),
        forall|d: Seq<char>| #![trigger board_has(b1, d)]
            board_has(b1, d) == board_has(s0.dear_leader_board@, d),
{
    assert forall|k: int, j: int|
        0 <= k < b1.len() && 0 <= j < b1[k].delegators@.len() implies (
    #[trigger] b1[k].delegators@[j])@ != sender && status_in(
        s0.boss_vote_power@,
        b1[k].delegators@[j]@,
    ) == DelegationStatus::DelegatedTo(b1[k].dear_leader@) by {
        let c = b1[k].delegators@[j]@;
        match dlv {
            Option::None => {
                assert(b1 == s0.dear_leader_board@);
                assert(status_in(s0.boss_vote_power@, c) == DelegationStatus::DelegatedTo(
                    b1[k].dear_leader@,
                ));
                if c == sender {
                    assert(status_in(s0.boss_vote_power@, sender)
                        matches DelegationStatus::DelegatedTo(_));
                }
            },
            Option::Some(dl) => {
                assert(status_in(s0.boss_vote_power@, c) == DelegationStatus::DelegatedTo(
                    b1[k].dear_leader@,
                ));
                if c == sender {
                    assert(b1[k].dear_leader@ == dl);
                    lemma_board_at_is(b1, dl, k);
                    assert(views_of(b1[k].delegators@)[j] == sender);
                    assert(delegators_in(b1, dl).contains(sender));
                }
            },
        }
    }
}

/// Removing an element and putting another back in its place is an update.
proof fn lemma_remove_insert<T>(s: Seq<T>, i: int, x: T)
    requires
        0 <= i < s.len(),
    ensures
        s.remove(i).insert(i, x) =~= s.update(i, x),
{
    s.remove_ensures(i);
    s.remove(i).insert_ensures(i, x);
    assert forall|q: int| 0 <= q < s.len() implies s.remove(i).insert(i, x)[q] == s.update(i, x)[q] by {
        if q < i {
            assert(s.remove(i).insert(i, x)[q] == s.remove(i)[q]);
        } else if q > i {
            assert(s.remove(i).insert(i, x)[q] == s.remove(i)[q - 1]);
            assert(s.remove(i)[q - 1] == s[q]);
        }
    }
}

/// Removing one occurrence from a duplicate-free list removes the value:
/// the views of the shortened list are the old views with `x` taken out.
proof fn lemma_views_remove(list: Seq<String>, j: int, x: Seq<char>)
    requires
        distinct_views(list),
        0 <= j < list.len(),
        list[j]@ == x,
    ensures
        views_of(list.remove(j)) == views_of(list).remove_value(x),
        !list_has(list.remove(j), x),
        !views_of(list.remove(j)).contains(x),
        distinct_views(list.remove(j)),
        forall|c: Seq<char>|
            c != x ==> #[trigger] views_of(list.remove(j)).contains(c) == views_of(list).contains(
                c,
            ),
{
    let vs = views_of(list);
    assert(vs.len() == list.len());
    assert(vs[j] == x);
    vs.index_of_first_ensures(x);
    assert(vs.contains(x));
    let fi = vs.index_of_first(x);
    let i0 = fi.unwrap();
    assert(0 <= i0 < vs.len() && vs[i0] == x);
    if i0 != j {
        if i0 < j {
            assert(list[i0]@ != list[j]@);
        } else {
            assert(list[j]@ != list[i0]@);
        }
        assert(false);
    }
    list.remove_ensures(j);
    assert(views_of(list.remove(j)) =~= vs.remove(j)) by {
        assert forall|q: int| 0 <= q < list.len() - 1 implies views_of(list.remove(j))[q]
            == vs.remove(j)[q] by {
            let q0 = if q < j { q } else { q + 1 };
            assert(list.remove(j)[q] == list[q0]);
            vs.remove_ensures(j);
            assert(vs.remove(j)[q] == vs[q0]);
        }
    }
    assert forall|p: int, q: int| 0 <= p < q < list.remove(j).len() implies (#[trigger] list.remove(
        j,
    )[p])@ != (#[trigger] list.remove(j)[q])@ by {
        let p0 = if p < j { p } else { p + 1 };
        let q0 = if q < j { q } else { q + 1 };
        assert(list.remove(j)[p] == list[p0] && list.remove(j)[q] == list[q0]);
    }
    if list_has(list.remove(j), x) {
        let p = list_at(list.remove(j), x);
        let p0 = if p < j { p } else { p + 1 };
        assert(list.remove(j)[p] == list[p0]);
        assert(p0 != j);
        if p0 < j {
            assert(list[p0]@ != list[j]@);
        } else {
            assert(list[j]@ != list[p0]@);
        }
        assert(false);
    }
    if views_of(list.remove(j)).contains(x) {
        let p = choose|p: int|
            0 <= p < views_of(list.remove(j)).len() && views_of(list.remove(j))[p] == x;
        assert(list.remove(j)[p]@ == x);
        assert(list_has(list.remove(j), x));
    }
    assert forall|c: Seq<char>| c != x implies #[trigger] views_of(list.remove(j)).contains(c)
        == views_of(list).contains(c) by {
        if views_of(list).contains(c) {
            let q0 = choose|q0: int| 0 <= q0 < vs.len() && vs[q0] == c;
            assert(q0 != j);
            let q = if q0 < j { q0 } else { q0 - 1 };
            assert(list.remove(j)[q] == list[q0]);
            assert(views_of(list.remove(j))[q] == c);
            assert(views_of(list.remove(j)).contains(c));
        } else if views_of(list.remove(j)).contains(c) {
            let q = choose|q: int|
                0 <= q < views_of(list.remove(j)).len() && views_of(list.remove(j))[q] == c;
            let q0 = if q < j { q } else { q + 1 };
            assert(list.remove(j)[q] == list[q0]);
            assert(vs[q0] == c);
            assert(vs.contains(c));
        }
    }
}

/// Fan-out correctness, in the state's own vocabulary: every instruction
/// a dear-leader vote dispatches goes to a delegator of that dear leader
/// that has not voted on the proposal, carrying the leader's vote option;
/// and when the cap covers the whole delegator list, every such
/// delegator is served.
pub proof fn lemma_dear_leader_vote_targets(
    s: AssemblyState,
    sender: Seq<char>,
    proposal_id: u64,
    vote: u64,
    r: Result<Vec<WasmInstruction>, ContractError>,
)
    requires
        s.wf(),
        1 <= vote <= 4,
        s.is_dear_leader(sender),
        s.delegators_of(sender).len() > 0,
        s.proposal_registered(proposal_id),
        AssemblyState::dear_leader_vote_post(s, sender, proposal_id, vote, r),
    ensures
        r matches Ok(msgs) && {
            &&& forall|q: int|
                0 <= q < msgs@.len() ==> {
                    &&& s.delegators_of(sender).contains((#[trigger] msgs@[q]).contract_addr@)
                    &&& !s.has_voted(proposal_id, msgs@[q].contract_addr@)
                    &&& msgs@[q].is_assembly_vote(msgs@[q].contract_addr@, proposal_id, vote)
                }
            &&& s.delegators_of(sender).len() <= 10 ==> forall|b: Seq<char>|
                s.delegators_of(sender).contains(b) && !s.has_voted(proposal_id, b)
                    ==> exists|q: int|
                    0 <= q < msgs@.len() && (#[trigger] msgs@[q]).contract_addr@ == b
        },
{
    let delegators = s.delegators_of(sender);
    let voted = voters_in(s.proposal_vote_history@, proposal_id);
    let targets = fanout_targets(delegators, voted, 10);
    lemma_fanout_sound(delegators, voted, 10);
    let msgs = r.unwrap();
    assert forall|q: int| 0 <= q < msgs@.len() implies {
        &&& delegators.contains((#[trigger] msgs@[q]).contract_addr@)
        &&& !s.has_voted(proposal_id, msgs@[q].contract_addr@)
        &&& msgs@[q].is_assembly_vote(msgs@[q].contract_addr@, proposal_id, vote)
    } by {
        assert(msgs@[q].is_assembly_vote(targets[q], proposal_id, vote));
        assert(msgs@[q].contract_addr@ == targets[q]);
        assert(delegators.contains(targets[q]) && !voted.contains(targets[q]));
    }
    if delegators.len() <= 10 {
        lemma_fanout_complete(delegators, voted, 10);
        assert forall|b: Seq<char>|
            delegators.contains(b) && !s.has_voted(proposal_id, b) implies exists|q: int|
            0 <= q < msgs@.len() && (#[trigger] msgs@[q]).contract_addr@ == b by {
            assert(targets.contains(b));
            let q = choose|q: int| 0 <= q < targets.len() && targets[q] == b;
            assert(msgs@[q].is_assembly_vote(targets[q], proposal_id, vote));
            assert(msgs@[q].contract_addr@ == b);
        }
    }
}

/// A boss registers at most once: if a registration succeeds from a state
/// where the boss was unknown, a second registration by the same boss is
/// bound to fail `UserAccountAlreadyRegister` and to leave the state alone.
pub proof fn lemma_register_boss_twice(
    s0: AssemblyState,
    s1: AssemblyState,
    s2: AssemblyState,
    b: Seq<char>,
    r1: Result<Vec<WasmInstruction>, ContractError>,
    r2: Result<Vec<WasmInstruction>, ContractError>,
)
    requires
        s0.boss_status(b) == DelegationStatus::Unregistered,
        AssemblyState::register_user_account_post(s0, s1, b, r1),
        AssemblyState::register_user_account_post(s1, s2, b, r2),
    ensures
        r1 is Ok,
        r2 == Err::<Vec<WasmInstruction>, ContractError>(ContractError::UserAccountAlreadyRegister),
        s2 == s1,
{
}

/// In a well-formed state, a delegating boss appears exactly once in its
/// dear leader's delegator set: membership is never duplicated.
pub proof fn lemma_delegator_listed_once(s: AssemblyState, d: Seq<char>, b: Seq<char>)
    requires
        s.wf(),
        s.is_dear_leader(d),
        s.delegators_of(d).contains(b),
    ensures
        forall|i: int, j: int|
            0 <= i < s.delegators_of(d).len() && 0 <= j < s.delegators_of(d).len() && (
            #[trigger] s.delegators_of(d)[i]) == b && (#[trigger] s.delegators_of(d)[j]) == b
                ==> i == j,
{
    let k = board_at(s.dear_leader_board@, d);
    let list = s.dear_leader_board@[k].delegators@;
    assert(distinct_views(list));
    assert forall|i: int, j: int|
        0 <= i < s.delegators_of(d).len() && 0 <= j < s.delegators_of(d).len()
            && s.delegators_of(d)[i] == b && s.delegators_of(d)[j] == b implies i == j by {
        assert(list[i]@ == b && list[j]@ == b);
        if i < j {
            assert(list[i]@ != list[j]@);
        } else if j < i {
            assert(list[j]@ != list[i]@);
        }
    }
}

/// Idempotence of delegator-set membership: transferring vote power to
/// the same dear leader twice in a row succeeds both times and leaves the
/// boss exactly once in that dear leader's delegator set.
pub proof fn lemma_transfer_idempotent(
    s0: AssemblyState,
    s1: AssemblyState,
    s2: AssemblyState,
    b: Seq<char>,
    d: Seq<char>,
    r1: Result<Vec<WasmInstruction>, ContractError>,
    r2: Result<Vec<WasmInstruction>, ContractError>,
)
    requires
        s2.wf(),
        s0.is_dear_leader(d),
        s0.boss_status(b) != DelegationStatus::Unregistered,
        AssemblyState::transfer_vote_power_post(s0, s1, b, d, true, r1),
        AssemblyState::transfer_vote_power_post(s1, s2, b, d, true, r2),
    ensures
        r1 is Ok,
        r2 is Ok,
        s2.delegators_of(d).contains(b),
        forall|i: int, j: int|
            0 <= i < s2.delegators_of(d).len() && 0 <= j < s2.delegators_of(d).len() && (
            #[trigger] s2.delegators_of(d)[i]) == b && (#[trigger] s2.delegators_of(d)[j]) == b
                ==> i == j,
{
    assert(s1.boss_status(b) == DelegationStatus::DelegatedTo(d));
    assert(s1.is_dear_leader(d));
    lemma_delegator_listed_once(s2, d, b);
}

} // verus!
