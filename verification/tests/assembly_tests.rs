use liquid_gov::assembly::{AssemblyState, ContractError};
use liquid_gov::common::ExecuteMsg as CommonExecuteMsg;

const FACTORY: &str = "factory";

fn fresh_assembly() -> AssemblyState {
    AssemblyState::new(String::from(FACTORY))
}

fn with_dear_leader(assembly: &mut AssemblyState, dl: &str) {
    assembly
        .register_new_dear_leader(&String::from(FACTORY), String::from(dl))
        .expect("factory may register a new dear leader");
}

fn delegators_of(assembly: &AssemblyState, dl: &str) -> Vec<String> {
    assembly
        .dear_leader_board
        .iter()
        .find(|e| e.dear_leader == dl)
        .expect("dear leader registered")
        .delegators
        .clone()
}

#[test]
fn contract_test_1() {
    // Boss registration: once, and only once; unregistration frees the
    // address again.
    let mut assembly = fresh_assembly();
    let b = String::from("boss1");
    assembly.register_user_account(&b).expect("first registration passes");
    let err = assembly
        .register_user_account(&b)
        .expect_err("repeated registration is refused");
    assert_eq!(err, ContractError::UserAccountAlreadyRegister);

    let err = assembly
        .unregister_user_account(&String::from("stranger"))
        .expect_err("an unknown boss cannot unregister");
    assert_eq!(err, ContractError::AccountNotRegistered);

    assembly.unregister_user_account(&b).expect("registered boss unregisters");
    assembly.register_user_account(&b).expect("the address is free again");
}

#[test]
fn contract_test_2() {
    // Vote-power transfer: only to a registered dear leader, membership
    // never duplicated, re-pointing moves the boss between delegator sets.
    let mut assembly = fresh_assembly();
    let b = String::from("boss1");
    assembly.register_user_account(&b).expect("register boss");

    // the factory alone may put a dear leader on the board
    let err = assembly
        .register_new_dear_leader(&String::from("intruder"), String::from("dl1"))
        .expect_err("not the factory");
    assert_eq!(err, ContractError::Unauthorized);
    with_dear_leader(&mut assembly, "dl1");
    let err = assembly
        .register_new_dear_leader(&String::from(FACTORY), String::from("dl1"))
        .expect_err("already on the board");
    assert_eq!(err, ContractError::AlreadyIsADearLeader);

    // a transfer to an unregistered target fails and changes nothing
    let before = assembly.boss_vote_power.clone();
    let err = assembly
        .transfer_vote_power(&b, &String::from("ghost"), true)
        .expect_err("target not on the board");
    assert_eq!(err, ContractError::DearLeaderNotRegistered);
    assert_eq!(assembly.boss_vote_power, before);
    let err = assembly
        .transfer_vote_power(&b, &String::from("dl1"), false)
        .expect_err("malformed target address");
    assert_eq!(err, ContractError::InvalidDearLeader);
    assert_eq!(assembly.boss_vote_power, before);
    let err = assembly
        .transfer_vote_power(&String::from("stranger"), &String::from("dl1"), true)
        .expect_err("caller not registered");
    assert_eq!(err, ContractError::AccountNotRegistered);

    // transferring twice to the same dear leader lists the boss once
    assembly.transfer_vote_power(&b, &String::from("dl1"), true).expect("transfer");
    assembly.transfer_vote_power(&b, &String::from("dl1"), true).expect("again");
    assert_eq!(delegators_of(&assembly, "dl1"), vec![b.clone()]);

    // re-pointing moves the boss to the other delegator set
    with_dear_leader(&mut assembly, "dl2");
    assembly.transfer_vote_power(&b, &String::from("dl2"), true).expect("re-point");
    assert!(delegators_of(&assembly, "dl1").is_empty());
    assert_eq!(delegators_of(&assembly, "dl2"), vec![b.clone()]);

    // reclaiming empties the set; the board entry itself stays
    assembly.reclaim_vote_power(&b).expect("reclaim");
    assert!(delegators_of(&assembly, "dl2").is_empty());
    let err = assembly
        .reclaim_vote_power(&String::from("stranger"))
        .expect_err("unknown boss");
    assert_eq!(err, ContractError::AccountNotRegistered);
}

#[test]
fn contract_test_3() {
    // The vote ledger: direct boss votes are recorded and forwarded; a
    // dear-leader vote fans out to the delegators that have not voted.
    let mut assembly = fresh_assembly();
    for b in ["b1", "b2", "b3"] {
        assembly.register_user_account(&String::from(b)).expect("register");
    }
    with_dear_leader(&mut assembly, "dl");
    for b in ["b1", "b2", "b3"] {
        assembly
            .transfer_vote_power(&String::from(b), &String::from("dl"), true)
            .expect("delegate");
    }

    // vote option outside 1..=4 is refused everywhere
    for v in [0u64, 5, 99] {
        let err = assembly
            .user_account_vote(&String::from("b1"), 77, v)
            .expect_err("invalid vote option");
        assert_eq!(err, ContractError::InvalidVote);
        let err = assembly
            .dear_leader_vote(&String::from("dl"), 77, v)
            .expect_err("invalid vote option");
        assert_eq!(err, ContractError::InvalidVote);
    }

    let err = assembly
        .user_account_vote(&String::from("nobody"), 77, 2)
        .expect_err("unregistered boss");
    assert_eq!(err, ContractError::AccountNotRegistered);

    // a dear leader cannot cast the first vote on a proposal
    let err = assembly
        .dear_leader_vote(&String::from("dl"), 77, 2)
        .expect_err("no vote record yet");
    assert_eq!(err, ContractError::ProposalNotRegistered);

    // b1 votes directly: the record appears and one forward is emitted
    let msgs = assembly.user_account_vote(&String::from("b1"), 77, 2).expect("vote");
    assert_eq!(msgs.len(), 1);
    assert_eq!(msgs[0].contract_addr, "b1");
    assert!(matches!(
        msgs[0].msg,
        CommonExecuteMsg::AssemblyVote { proposal_id: 77, vote_option: 2 }
    ));

    // the fan-out reaches exactly the delegators that have not voted
    let msgs = assembly.dear_leader_vote(&String::from("dl"), 77, 2).expect("fan out");
    let targets: Vec<&str> = msgs.iter().map(|m| m.contract_addr.as_str()).collect();
    assert_eq!(targets, vec!["b2", "b3"]);
    for m in &msgs {
        assert!(matches!(
            m.msg,
            CommonExecuteMsg::AssemblyVote { proposal_id: 77, vote_option: 2 }
        ));
    }

    // errors specific to the dear-leader path
    let err = assembly
        .dear_leader_vote(&String::from("nobody"), 77, 2)
        .expect_err("not a dear leader");
    assert_eq!(err, ContractError::DearLeaderNotRegistered);
    with_dear_leader(&mut assembly, "lonely");
    let err = assembly
        .dear_leader_vote(&String::from("lonely"), 77, 2)
        .expect_err("no delegators");
    assert_eq!(err, ContractError::NoVotePower);
}
