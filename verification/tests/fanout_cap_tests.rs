use liquid_gov::assembly::{AssemblyState, ExecuteMsg};
use liquid_gov::common::ExecuteMsg as CommonExecuteMsg;

#[test]
fn fan_out_is_capped_at_ten() {
    // 15 delegators, none of whom has voted: exactly 10 forward
    // instructions leave, for the first 10 delegators in board order.
    let mut assembly = AssemblyState::new(String::from("factory"));
    assembly
        .register_new_dear_leader(&String::from("factory"), String::from("dl"))
        .expect("register dear leader");
    let bosses: Vec<String> = (0..15).map(|i| format!("boss{i:02}")).collect();
    for b in &bosses {
        assembly.register_user_account(b).expect("register");
        assembly.transfer_vote_power(b, &String::from("dl"), true).expect("delegate");
    }
    // someone outside the delegator set opens the proposal's record
    assembly.register_user_account(&String::from("opener")).expect("register");
    assembly.user_account_vote(&String::from("opener"), 9, 4).expect("first vote");

    let msgs = assembly.dear_leader_vote(&String::from("dl"), 9, 4).expect("fan out");
    assert_eq!(msgs.len(), 10);
    let targets: Vec<&str> = msgs.iter().map(|m| m.contract_addr.as_str()).collect();
    let expected: Vec<&str> = bosses[..10].iter().map(|b| b.as_str()).collect();
    assert_eq!(targets, expected);
}

#[test]
fn fan_out_skips_recorded_voters_under_the_cap() {
    // 15 delegators of whom 7 already voted: the 8 others all get served,
    // since they fit under the cap.
    let mut assembly = AssemblyState::new(String::from("factory"));
    assembly
        .register_new_dear_leader(&String::from("factory"), String::from("dl"))
        .expect("register dear leader");
    let bosses: Vec<String> = (0..15).map(|i| format!("boss{i:02}")).collect();
    for b in &bosses {
        assembly.register_user_account(b).expect("register");
        assembly.transfer_vote_power(b, &String::from("dl"), true).expect("delegate");
    }
    for b in &bosses[..7] {
        assembly.user_account_vote(b, 9, 1).expect("direct vote");
    }
    let msgs = assembly.dear_leader_vote(&String::from("dl"), 9, 1).expect("fan out");
    let targets: Vec<&str> = msgs.iter().map(|m| m.contract_addr.as_str()).collect();
    let expected: Vec<&str> = bosses[7..].iter().map(|b| b.as_str()).collect();
    assert_eq!(targets, expected);
}

#[test]
fn execute_dispatches_assembly_messages() {
    let mut assembly = AssemblyState::new(String::from("factory"));
    assembly
        .execute(
            &String::from("factory"),
            ExecuteMsg::RegisterDearLeader { new_dear_leader_addr: String::from("dl") },
            true,
        )
        .expect("register dear leader");
    assembly
        .execute(&String::from("b"), ExecuteMsg::RegisterUserAccount {}, true)
        .expect("register boss");
    assembly
        .execute(
            &String::from("b"),
            ExecuteMsg::TransferVotePower { dear_leader_addr: String::from("dl") },
            true,
        )
        .expect("transfer");
    let msgs = assembly
        .execute(
            &String::from("b"),
            ExecuteMsg::UserAccountVote { proposal_id: 3, vote_option: 1 },
            true,
        )
        .expect("vote");
    assert_eq!(msgs.len(), 1);
    assert!(matches!(
        msgs[0].msg,
        CommonExecuteMsg::AssemblyVote { proposal_id: 3, vote_option: 1 }
    ));
    assembly
        .execute(&String::from("b"), ExecuteMsg::ReclaimVotePower {}, true)
        .expect("reclaim");
    let err = assembly
        .execute(
            &String::from("dl"),
            ExecuteMsg::DearLeaderVote { proposal_id: 3, vote_option: 1 },
            true,
        )
        .expect_err("delegator set emptied by the reclaim");
    assert_eq!(err, liquid_gov::assembly::ContractError::NoVotePower);
    assembly
        .execute(&String::from("b"), ExecuteMsg::UnregisterUserAccount {}, true)
        .expect("unregister");
}
