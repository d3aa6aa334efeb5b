use liquid_gov::common::ExecuteMsg as CommonExecuteMsg;
use liquid_gov::factory::{
    ContractError, ExecuteMsg, FactoryState, DEAR_LEADER_ACCOUNT_REPLY_ID, USER_ACCOUNT_REPLY_ID,
};

fn fresh_factory() -> FactoryState {
    FactoryState::new(11, 22, String::from("assembly"))
}

#[test]
fn test_1() {
    // Provisioning round trip: a creation request records nothing; the
    // receipt appends the assigned address exactly once, and a second
    // receipt appends a second, distinct entry without deduplication.
    let mut factory = fresh_factory();
    let req = factory
        .create_user_account(&String::from("factory"), &String::from("alice"))
        .expect("first request must pass");
    assert_eq!(req.reply_id, USER_ACCOUNT_REPLY_ID);
    assert_eq!(req.code_id, 11);
    assert_eq!(req.admin, "factory");
    assert_eq!(req.label, "alice_user_account");
    assert!(factory.user_accounts_under_management.is_empty());

    let followup = factory
        .reply(USER_ACCOUNT_REPLY_ID, String::from("addr_x"))
        .expect("known tag");
    assert!(followup.is_none());
    assert_eq!(factory.user_accounts_under_management, vec![String::from("addr_x")]);

    let followup = factory
        .reply(USER_ACCOUNT_REPLY_ID, String::from("addr_y"))
        .expect("known tag");
    assert!(followup.is_none());
    assert_eq!(
        factory.user_accounts_under_management,
        vec![String::from("addr_x"), String::from("addr_y")]
    );
    assert!(factory.dear_leader_accounts_under_management.is_empty());
}

#[test]
fn test_2() {
    // An owner already holding an account of the role cannot request a
    // second one; the other role's list does not interfere.
    let mut factory = fresh_factory();
    factory
        .reply(USER_ACCOUNT_REPLY_ID, String::from("alice"))
        .expect("known tag");
    let err = factory
        .create_user_account(&String::from("factory"), &String::from("alice"))
        .expect_err("alice already owns a boss account");
    assert_eq!(err, ContractError::UserAccountAlreadyExists);

    let req = factory
        .create_dear_leader_account(&String::from("factory"), &String::from("alice"))
        .expect("no dear-leader account yet");
    assert_eq!(req.reply_id, DEAR_LEADER_ACCOUNT_REPLY_ID);
    assert_eq!(req.code_id, 22);
    assert_eq!(req.label, "alice_dear_leader_account");

    factory
        .reply(DEAR_LEADER_ACCOUNT_REPLY_ID, String::from("alice"))
        .expect("known tag");
    let err = factory
        .create_dear_leader_account(&String::from("factory"), &String::from("alice"))
        .expect_err("alice now owns a dear-leader account");
    assert_eq!(err, ContractError::DearLeaderAccountAlreadyExists);
}

#[test]
fn test_3() {
    // A dear-leader receipt also asks the assembly to register the new
    // account; an unknown continuation tag is refused and records nothing.
    let mut factory = fresh_factory();
    let followup = factory
        .reply(DEAR_LEADER_ACCOUNT_REPLY_ID, String::from("dl_addr"))
        .expect("known tag");
    let instruction = followup.expect("a dear-leader receipt emits a registration");
    assert_eq!(instruction.contract_addr, "assembly");
    assert!(matches!(
        instruction.msg,
        CommonExecuteMsg::RegisterWannaBe { ref wanna_be_addr } if wanna_be_addr == "dl_addr"
    ));
    assert_eq!(
        factory.dear_leader_accounts_under_management,
        vec![String::from("dl_addr")]
    );

    let err = factory
        .reply(7, String::from("nobody"))
        .expect_err("unknown continuation tag");
    assert_eq!(err, ContractError::UnknownReplyIdCommon);
    assert_eq!(factory.dear_leader_accounts_under_management.len(), 1);
    assert!(factory.user_accounts_under_management.is_empty());

    factory.reply(USER_ACCOUNT_REPLY_ID, String::from("boss_addr")).expect("known tag");
    let all = factory.get_all_contracts_under_management();
    assert_eq!(
        all.contract_addrs,
        vec![String::from("boss_addr"), String::from("dl_addr")]
    );

    // the execute dispatch routes both creation messages
    let req = factory
        .execute(
            &String::from("factory"),
            &String::from("bob"),
            &ExecuteMsg::CreateUserAccount {},
        )
        .expect("bob owns nothing yet");
    assert_eq!(req.reply_id, USER_ACCOUNT_REPLY_ID);
    let req = factory
        .execute(
            &String::from("factory"),
            &String::from("bob"),
            &ExecuteMsg::CreateDearLeaderAccount {},
        )
        .expect("bob owns nothing yet");
    assert_eq!(req.reply_id, DEAR_LEADER_ACCOUNT_REPLY_ID);
}
