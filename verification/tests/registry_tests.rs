use liquid_gov::assembly::AssemblyState;
use liquid_gov::common::authorized;

#[test]
fn authorized_compares_the_stored_address() {
    assert!(authorized(&String::from("factory"), &String::from("factory")));
    assert!(!authorized(&String::from("factory"), &String::from("Factory")));
    assert!(!authorized(&String::from("factory"), &String::from("")));
}

#[test]
fn unregister_also_leaves_the_delegator_set() {
    // the registries stay consistent in both directions: a boss that
    // unregisters disappears from its dear leader's delegator list
    let mut assembly = AssemblyState::new(String::from("factory"));
    assembly
        .register_new_dear_leader(&String::from("factory"), String::from("dl"))
        .expect("register dear leader");
    for b in ["b1", "b2"] {
        assembly.register_user_account(&String::from(b)).expect("register");
        assembly
            .transfer_vote_power(&String::from(b), &String::from("dl"), true)
            .expect("delegate");
    }
    assembly.unregister_user_account(&String::from("b1")).expect("unregister");
    let entry = assembly
        .dear_leader_board
        .iter()
        .find(|e| e.dear_leader == "dl")
        .expect("board entry stays");
    assert_eq!(entry.delegators, vec![String::from("b2")]);
}

#[test]
fn direct_votes_accumulate_per_proposal() {
    let mut assembly = AssemblyState::new(String::from("factory"));
    for b in ["b1", "b2"] {
        assembly.register_user_account(&String::from(b)).expect("register");
    }
    assembly.user_account_vote(&String::from("b1"), 4, 1).expect("vote");
    assembly.user_account_vote(&String::from("b2"), 4, 3).expect("vote");
    assembly.user_account_vote(&String::from("b1"), 8, 2).expect("vote");
    let record_4 = assembly
        .proposal_vote_history
        .iter()
        .find(|r| r.proposal_id == 4)
        .expect("proposal 4 recorded");
    assert_eq!(record_4.voters, vec![String::from("b1"), String::from("b2")]);
    let record_8 = assembly
        .proposal_vote_history
        .iter()
        .find(|r| r.proposal_id == 8)
        .expect("proposal 8 recorded");
    assert_eq!(record_8.voters, vec![String::from("b1")]);
}

#[test]
fn repeated_direct_vote_is_recorded_once() {
    // the per-proposal record is a set: a boss voting twice on one
    // proposal stays listed once, though each vote is still forwarded
    let mut assembly = AssemblyState::new(String::from("factory"));
    assembly.register_user_account(&String::from("b1")).expect("register");
    let first = assembly.user_account_vote(&String::from("b1"), 4, 1).expect("vote");
    assert_eq!(first.len(), 1);
    let second = assembly.user_account_vote(&String::from("b1"), 4, 2).expect("vote again");
    assert_eq!(second.len(), 1);
    let record = assembly
        .proposal_vote_history
        .iter()
        .find(|r| r.proposal_id == 4)
        .expect("proposal recorded");
    assert_eq!(record.voters, vec![String::from("b1")]);
}
