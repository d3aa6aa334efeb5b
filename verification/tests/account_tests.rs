use liquid_gov::common::{Coin, ExecuteMsg as CommonExecuteMsg};
use liquid_gov::dear_leader_account::{
    ContractError as DlError, DearLeaderAccountState, ExecuteMsg as DlExecuteMsg,
};
use liquid_gov::user_account::{
    ContractError, Delegation, DistributionInstruction, GovInstruction, StakingInstruction,
    UserAccountState, VoteOption,
};

fn boss_account() -> UserAccountState {
    UserAccountState::new(String::from("boss"), String::from("assembly"))
}

fn one_coin(denom: &str, amount: u128) -> Vec<Coin> {
    vec![Coin { denom: String::from(denom), amount }]
}

fn native() -> String {
    String::from("untrn")
}

#[test]
fn delegate_checks_caller_funds_and_validator() {
    let account = boss_account();
    let err = account
        .delegate(&String::from("intruder"), &one_coin("untrn", 5), &native(), &String::from("val"), true)
        .expect_err("only the boss may stake");
    assert_eq!(err, ContractError::Unauthorized);

    let err = account
        .delegate(&String::from("boss"), &one_coin("other", 5), &native(), &String::from("val"), true)
        .expect_err("wrong denomination");
    assert_eq!(err, ContractError::WrongToken);
    let err = account
        .delegate(&String::from("boss"), &one_coin("untrn", 0), &native(), &String::from("val"), true)
        .expect_err("nothing sent");
    assert_eq!(err, ContractError::WrongToken);
    let err = account
        .delegate(&String::from("boss"), &Vec::new(), &native(), &String::from("val"), true)
        .expect_err("no funds");
    assert_eq!(err, ContractError::WrongToken);

    let err = account
        .delegate(&String::from("boss"), &one_coin("untrn", 5), &native(), &String::from("val"), false)
        .expect_err("malformed validator address");
    assert_eq!(err, ContractError::InvalidAddr);

    let instruction = account
        .delegate(&String::from("boss"), &one_coin("untrn", 5), &native(), &String::from("val"), true)
        .expect("all checks pass");
    match instruction {
        StakingInstruction::Delegate { validator, amount } => {
            assert_eq!(validator, "val");
            assert_eq!(amount.denom, "untrn");
            assert_eq!(amount.amount, 5);
        },
        other => panic!("unexpected instruction {other:?}"),
    }
}

#[test]
fn undelegate_bounds_the_requested_amount() {
    let account = boss_account();
    let delegation = Some(Delegation {
        validator: String::from("val"),
        amount: Coin { denom: String::from("untrn"), amount: 100 },
    });
    let err = account
        .undelegate(&String::from("boss"), true, &None, 10)
        .expect_err("nothing delegated");
    assert_eq!(err, ContractError::NoDelegation);
    let err = account
        .undelegate(&String::from("boss"), true, &delegation, 100)
        .expect_err("amount reaches the delegation");
    assert_eq!(err, ContractError::UndelegateAmountTooHigh);
    let instruction = account
        .undelegate(&String::from("boss"), true, &delegation, 99)
        .expect("within bounds");
    match instruction {
        StakingInstruction::Undelegate { validator, amount } => {
            assert_eq!(validator, "val");
            // the instruction undelegates the delegation's recorded amount
            assert_eq!(amount.amount, 100);
        },
        other => panic!("unexpected instruction {other:?}"),
    }
}

#[test]
fn undelegate_all_and_claim_cover_every_delegation() {
    let account = boss_account();
    let delegations = vec![
        Delegation {
            validator: String::from("v1"),
            amount: Coin { denom: String::from("untrn"), amount: 7 },
        },
        Delegation {
            validator: String::from("v2"),
            amount: Coin { denom: String::from("untrn"), amount: 9 },
        },
    ];
    let msgs = account
        .undelegate_all(&String::from("boss"), &delegations)
        .expect("boss calls");
    assert_eq!(msgs.len(), 2);
    match &msgs[1] {
        StakingInstruction::Undelegate { validator, amount } => {
            assert_eq!(validator, "v2");
            assert_eq!(amount.amount, 9);
        },
        other => panic!("unexpected instruction {other:?}"),
    }
    let msgs = account.claim(&String::from("boss"), &delegations).expect("boss calls");
    assert_eq!(msgs.len(), 2);
    assert!(matches!(
        &msgs[0],
        DistributionInstruction::WithdrawDelegatorReward { validator } if validator == "v1"
    ));
    let err = account
        .claim(&String::from("intruder"), &delegations)
        .expect_err("only the boss");
    assert_eq!(err, ContractError::Unauthorized);
}

#[test]
fn redelegate_moves_the_recorded_amount() {
    let account = boss_account();
    let delegation = Some(Delegation {
        validator: String::from("v1"),
        amount: Coin { denom: String::from("untrn"), amount: 50 },
    });
    let err = account
        .redelegate(&String::from("boss"), &String::from("v1"), &String::from("v2"), true, false, &delegation, 10)
        .expect_err("malformed target validator");
    assert_eq!(err, ContractError::InvalidAddr);
    let instruction = account
        .redelegate(&String::from("boss"), &String::from("v1"), &String::from("v2"), true, true, &delegation, 10)
        .expect("within bounds");
    match instruction {
        StakingInstruction::Redelegate { src_validator, dst_validator, amount } => {
            assert_eq!(src_validator, "v1");
            assert_eq!(dst_validator, "v2");
            assert_eq!(amount.amount, 50);
        },
        other => panic!("unexpected instruction {other:?}"),
    }
}

#[test]
fn boss_transfer_persists_target_and_instructs_assembly() {
    let mut account = boss_account();
    let err = account
        .transfer_vote_power(&String::from("boss"), &String::from("dl"), false)
        .expect_err("malformed dear-leader address");
    assert_eq!(err, ContractError::InvalidAddr);
    assert!(account.dear_leader_addr.is_none());

    let instruction = account
        .transfer_vote_power(&String::from("boss"), &String::from("dl"), true)
        .expect("boss calls with a valid address");
    assert_eq!(account.dear_leader_addr.as_deref(), Some("dl"));
    assert_eq!(instruction.contract_addr, "assembly");
    assert!(matches!(
        instruction.msg,
        CommonExecuteMsg::TransferVotePower { ref dear_leader_addr } if dear_leader_addr == "dl"
    ));
}

#[test]
fn assembly_vote_translates_the_numeric_option() {
    let account = boss_account();
    let err = account
        .assembly_vote(&String::from("boss"), 1, 1)
        .expect_err("only the assembly may instruct a vote");
    assert_eq!(err, ContractError::Unauthorized);
    for (v, expected) in [
        (1u64, VoteOption::Yes),
        (2, VoteOption::No),
        (3, VoteOption::Abstain),
        (4, VoteOption::NoWithVeto),
    ] {
        let GovInstruction::Vote { proposal_id, vote } = account
            .assembly_vote(&String::from("assembly"), 42, v)
            .expect("valid option");
        assert_eq!(proposal_id, 42);
        assert_eq!(vote, expected);
    }
    for v in [0u64, 5, 1000] {
        let err = account
            .assembly_vote(&String::from("assembly"), 42, v)
            .expect_err("option outside 1..=4");
        assert_eq!(err, ContractError::InvalidVote);
    }
}

#[test]
fn dear_leader_account_forwards_owner_votes() {
    let account = DearLeaderAccountState::new(String::from("owner"), String::from("assembly"));
    let err = account
        .vote(&String::from("intruder"), 5, 2)
        .expect_err("only the owner");
    assert_eq!(err, DlError::Unauthorized);
    assert!(account.validate_owner(&String::from("owner")).is_ok());

    let instruction = account
        .execute(&String::from("owner"), &DlExecuteMsg::Vote { proposal_id: 5, vote_option: 2 })
        .expect("owner votes");
    assert_eq!(instruction.contract_addr, "assembly");
    assert!(matches!(
        instruction.msg,
        CommonExecuteMsg::DearLeaderVote { proposal_id: 5, vote_option: 2 }
    ));
}
