use cosmwasm_std::testing::MockApi;
use cosmwasm_std::Api;
use enterprise::api::UserWeight;
use enterprise::asset::{Addr, AssetInfo};
use enterprise::decimal::Decimal;
use enterprise::governance::{
    Asset, DaoCouncil, DaoCouncilSpec, DaoType, DistributeFundsMsg, Duration, ExecuteMsgsMsg,
    GovConfig, GovernanceControllerError, ModifyMultisigMembershipMsg, ModifyValue,
    ProposalAction, ProposalActionType, ProposalDeposit, RequestFundingFromDaoMsg,
    UpdateAssetWhitelistMsg, UpdateCouncilMsg, UpdateGovConfigMsg,
    UpdateMinimumWeightForRewardsMsg, UpdateNftWhitelistMsg, UpgradeDaoMsg,
};
use enterprise::validate::{
    apply_gov_config_changes, check_council_members, check_dao_council, execute_msg_verdict,
    is_same_asset, normalize_asset_whitelist, split_assets, validate_allowed_council_proposal_types,
    validate_asset_whitelist_changes, validate_dao_council, validate_dao_gov_config,
    validate_deposit, validate_distribute_funds, validate_execute_msgs,
    validate_modify_multisig_membership, validate_nft_whitelist_changes,
    validate_no_duplicate_council_members, validate_proposal_action, validate_proposal_actions,
    validate_quorum_value, validate_threshold_value, validate_upgrade_dao,
};

/// An address with the verdict that the mock host gives on it.
fn addr(text: &str) -> Addr {
    Addr::new(text.to_string(), MockApi::default().addr_validate(text).is_ok())
}

fn stub_dao_gov_config() -> GovConfig {
    GovConfig {
        quorum: Decimal::percent(10),
        threshold: Decimal::percent(30),
        veto_threshold: None,
        vote_duration: 1,
        unlocking_period: Duration::Height(100),
        minimum_deposit: None,
        allow_early_proposal_execution: false,
    }
}

fn no_change() -> UpdateGovConfigMsg {
    UpdateGovConfigMsg {
        quorum: ModifyValue::NoChange,
        threshold: ModifyValue::NoChange,
        veto_threshold: ModifyValue::NoChange,
        voting_duration: ModifyValue::NoChange,
        unlocking_period: ModifyValue::NoChange,
        minimum_deposit: ModifyValue::NoChange,
        allow_early_proposal_execution: ModifyValue::NoChange,
    }
}

fn invalid_argument(msg: &str) -> GovernanceControllerError {
    GovernanceControllerError::InvalidArgument { msg: msg.to_string() }
}

const SEND: &str =
    r#"{"bank":{"send":{"to_address":"recipient","amount":[{"denom":"usd","amount":"5"}]}}}"#;

#[test]
fn create_proposal_with_no_token_deposit_when_minimum_deposit_is_specified_fails() {
    let dao_gov_config = GovConfig { minimum_deposit: Some(1u128), ..stub_dao_gov_config() };
    let result = validate_deposit(&dao_gov_config, &None);
    assert_eq!(
        result,
        Err(GovernanceControllerError::InsufficientProposalDeposit { required_amount: 1u128 })
    );
}

#[test]
fn create_proposal_with_insufficient_token_deposit_fails() {
    let dao_gov_config = GovConfig { minimum_deposit: Some(2u128), ..stub_dao_gov_config() };
    let deposit = Some(ProposalDeposit { depositor: addr("user"), amount: 1u128 });
    let result = validate_deposit(&dao_gov_config, &deposit);
    assert_eq!(
        result,
        Err(GovernanceControllerError::InsufficientProposalDeposit { required_amount: 2u128 })
    );
}

#[test]
fn create_proposal_with_sufficient_token_deposit_succeeds() {
    let dao_gov_config = GovConfig { minimum_deposit: Some(2u128), ..stub_dao_gov_config() };
    let deposit = Some(ProposalDeposit { depositor: addr("user"), amount: 3u128 });
    let result = validate_deposit(&dao_gov_config, &deposit);
    assert!(result.is_ok());
    let exact = Some(ProposalDeposit { depositor: addr("user"), amount: 2u128 });
    assert!(validate_deposit(&dao_gov_config, &exact).is_ok());
    assert!(validate_deposit(&stub_dao_gov_config(), &None).is_ok());
}

#[test]
fn create_proposal_with_duplicate_add_whitelist_assets_fails() {
    let result = validate_proposal_actions(
        &stub_dao_gov_config(),
        DaoType::Token,
        &vec![ProposalAction::UpdateAssetWhitelist(UpdateAssetWhitelistMsg {
            add: vec![AssetInfo::cw20(addr("token")), AssetInfo::cw20(addr("token"))],
            remove: vec![],
        })],
    );
    assert_eq!(result, Err(GovernanceControllerError::DuplicateAssetFound));
}

#[test]
fn create_proposal_with_duplicate_remove_whitelist_assets_fails() {
    let result = validate_proposal_actions(
        &stub_dao_gov_config(),
        DaoType::Token,
        &vec![ProposalAction::UpdateAssetWhitelist(UpdateAssetWhitelistMsg {
            add: vec![],
            remove: vec![AssetInfo::cw20(addr("token")), AssetInfo::cw20(addr("token"))],
        })],
    );
    assert_eq!(result, Err(GovernanceControllerError::DuplicateAssetFound));
}

#[test]
fn create_proposal_with_duplicate_add_whitelist_nft_fails() {
    let result = validate_proposal_actions(
        &stub_dao_gov_config(),
        DaoType::Token,
        &vec![ProposalAction::UpdateNftWhitelist(UpdateNftWhitelistMsg {
            add: vec![addr("nft"), addr("nft")],
            remove: vec![],
        })],
    );
    assert_eq!(result, Err(GovernanceControllerError::DuplicateNftFound));
}

#[test]
fn create_proposal_with_duplicate_remove_whitelist_nft_fails() {
    let result = validate_proposal_actions(
        &stub_dao_gov_config(),
        DaoType::Token,
        &vec![ProposalAction::UpdateNftWhitelist(UpdateNftWhitelistMsg {
            add: vec![],
            remove: vec![addr("nft"), addr("nft")],
        })],
    );
    assert_eq!(result, Err(GovernanceControllerError::DuplicateNftFound));
}

#[test]
fn create_proposal_with_invalid_execute_msg_fails() {
    let result = validate_proposal_actions(
        &stub_dao_gov_config(),
        DaoType::Token,
        &vec![ProposalAction::ExecuteMsgs(ExecuteMsgsMsg {
            action_type: "random".to_string(),
            msgs: vec!["random_message".to_string()],
        })],
    );
    assert_eq!(result, Err(GovernanceControllerError::InvalidCosmosMessage));
}

#[test]
fn create_proposal_with_invalid_gov_config_fails() {
    let gov_config = GovConfig { vote_duration: 4, ..stub_dao_gov_config() };
    let result = validate_proposal_actions(
        &gov_config,
        DaoType::Token,
        &vec![ProposalAction::UpdateGovConfig(UpdateGovConfigMsg {
            unlocking_period: ModifyValue::Change(Duration::Time(3)),
            ..no_change()
        })],
    );
    assert_eq!(result, Err(GovernanceControllerError::VoteDurationLongerThanUnstaking));
}

#[test]
fn create_modify_multisig_members_proposal_for_token_dao_fails() {
    let result = validate_proposal_actions(
        &stub_dao_gov_config(),
        DaoType::Token,
        &vec![ProposalAction::ModifyMultisigMembership(ModifyMultisigMembershipMsg {
            edit_members: vec![],
        })],
    );
    assert_eq!(
        result,
        Err(GovernanceControllerError::UnsupportedOperationForDaoType {
            dao_type: "Token".to_string()
        })
    );
}

#[test]
fn create_modify_multisig_members_proposal_for_nft_dao_fails() {
    let result = validate_proposal_actions(
        &stub_dao_gov_config(),
        DaoType::Nft,
        &vec![ProposalAction::ModifyMultisigMembership(ModifyMultisigMembershipMsg {
            edit_members: vec![],
        })],
    );
    assert_eq!(
        result,
        Err(GovernanceControllerError::UnsupportedOperationForDaoType {
            dao_type: "Nft".to_string()
        })
    );
}

#[test]
fn create_proposal_to_update_council_with_non_allowed_types_fails() {
    let result = validate_proposal_actions(
        &stub_dao_gov_config(),
        DaoType::Multisig,
        &vec![ProposalAction::UpdateCouncil(UpdateCouncilMsg {
            dao_council: Some(DaoCouncilSpec {
                members: vec![addr("member")],
                quorum: Decimal::percent(75),
                threshold: Decimal::percent(50),
                allowed_proposal_action_types: Some(vec![ProposalActionType::UpdateCouncil]),
            }),
        })],
    );
    assert_eq!(
        result,
        Err(GovernanceControllerError::UnsupportedCouncilProposalAction {
            action: ProposalActionType::UpdateCouncil
        })
    );
}

#[test]
fn gov_config_checks_come_in_order() {
    let good = stub_dao_gov_config();
    assert_eq!(validate_dao_gov_config(&DaoType::Token, &good), Ok(()));
    let zero = GovConfig { vote_duration: 0, quorum: Decimal::zero(), ..good };
    assert_eq!(
        validate_dao_gov_config(&DaoType::Token, &zero),
        Err(GovernanceControllerError::ZeroVoteDuration)
    );
    let long = GovConfig {
        vote_duration: 5,
        unlocking_period: Duration::Time(4),
        quorum: Decimal::zero(),
        ..good
    };
    assert_eq!(
        validate_dao_gov_config(&DaoType::Token, &long),
        Err(GovernanceControllerError::VoteDurationLongerThanUnstaking)
    );
    let equal = GovConfig { vote_duration: 5, unlocking_period: Duration::Time(5), ..good };
    assert_eq!(validate_dao_gov_config(&DaoType::Token, &equal), Ok(()));
    let blocks = GovConfig { vote_duration: 500, unlocking_period: Duration::Height(4), ..good };
    assert_eq!(validate_dao_gov_config(&DaoType::Token, &blocks), Ok(()));
    let quorum = GovConfig { quorum: Decimal::zero(), threshold: Decimal::zero(), ..good };
    assert_eq!(
        validate_dao_gov_config(&DaoType::Token, &quorum),
        Err(invalid_argument("Invalid quorum, must be 0 < quorum <= 1"))
    );
    let threshold = GovConfig {
        threshold: Decimal::raw(1_000_000_000_000_000_001),
        veto_threshold: Some(Decimal::zero()),
        ..good
    };
    assert_eq!(
        validate_dao_gov_config(&DaoType::Token, &threshold),
        Err(invalid_argument("Invalid threshold, must be 0 < threshold <= 1"))
    );
    let veto = GovConfig {
        veto_threshold: Some(Decimal::zero()),
        minimum_deposit: Some(1),
        ..good
    };
    assert_eq!(
        validate_dao_gov_config(&DaoType::Nft, &veto),
        Err(invalid_argument("Invalid veto threshold, must be 0 < threshold <= 1"))
    );
    let veto_high = GovConfig { veto_threshold: Some(Decimal::percent(101)), ..good };
    assert_eq!(
        validate_dao_gov_config(&DaoType::Token, &veto_high),
        Err(invalid_argument("Invalid veto threshold, must be 0 < threshold <= 1"))
    );
    let whole = GovConfig {
        quorum: Decimal::one(),
        threshold: Decimal::one(),
        veto_threshold: Some(Decimal::one()),
        ..good
    };
    assert_eq!(validate_dao_gov_config(&DaoType::Token, &whole), Ok(()));
}

#[test]
fn minimum_deposit_is_for_token_organizations_only() {
    let config = GovConfig { minimum_deposit: Some(0), ..stub_dao_gov_config() };
    assert_eq!(validate_dao_gov_config(&DaoType::Token, &config), Ok(()));
    assert_eq!(
        validate_dao_gov_config(&DaoType::Nft, &config),
        Err(GovernanceControllerError::MinimumDepositNotAllowed)
    );
    assert_eq!(
        validate_dao_gov_config(&DaoType::Multisig, &config),
        Err(GovernanceControllerError::MinimumDepositNotAllowed)
    );
}

#[test]
fn quorum_and_threshold_have_their_own_messages() {
    assert_eq!(validate_quorum_value(Decimal::percent(1)), Ok(()));
    assert_eq!(validate_quorum_value(Decimal::one()), Ok(()));
    assert_eq!(
        validate_quorum_value(Decimal::percent(101)),
        Err(invalid_argument("Invalid quorum, must be 0 < quorum <= 1"))
    );
    assert_eq!(validate_threshold_value(Decimal::raw(1)), Ok(()));
    assert_eq!(
        validate_threshold_value(Decimal::zero()),
        Err(invalid_argument("Invalid threshold, must be 0 < threshold <= 1"))
    );
}

#[test]
fn gov_config_changes_replace_only_what_they_name() {
    let old = stub_dao_gov_config();
    assert_eq!(apply_gov_config_changes(old, &no_change()), old);
    let msg = UpdateGovConfigMsg {
        quorum: ModifyValue::Change(Decimal::percent(20)),
        threshold: ModifyValue::Change(Decimal::percent(60)),
        veto_threshold: ModifyValue::Change(Some(Decimal::percent(33))),
        voting_duration: ModifyValue::Change(20),
        unlocking_period: ModifyValue::Change(Duration::Time(30)),
        minimum_deposit: ModifyValue::Change(Some(7)),
        allow_early_proposal_execution: ModifyValue::Change(true),
    };
    assert_eq!(
        apply_gov_config_changes(old, &msg),
        GovConfig {
            quorum: Decimal::percent(20),
            threshold: Decimal::percent(60),
            veto_threshold: Some(Decimal::percent(33)),
            vote_duration: 20,
            unlocking_period: Duration::Time(30),
            minimum_deposit: Some(7),
            allow_early_proposal_execution: true,
        }
    );
    let some = UpdateGovConfigMsg {
        veto_threshold: ModifyValue::Change(None),
        voting_duration: ModifyValue::Change(9),
        ..no_change()
    };
    let veto = GovConfig { veto_threshold: Some(Decimal::one()), ..old };
    assert_eq!(
        apply_gov_config_changes(veto, &some),
        GovConfig { veto_threshold: None, vote_duration: 9, ..old }
    );
}

#[test]
fn whitelist_is_sorted_out_by_kind() {
    let list = vec![
        AssetInfo::cw1155(addr("multi"), "1"),
        AssetInfo::cw20(addr("token_b")),
        AssetInfo::native("usd"),
        AssetInfo::cw1155(addr("multi"), "2"),
        AssetInfo::cw20(addr("token_a")),
        AssetInfo::native("eur"),
        AssetInfo::cw20(addr("usd")),
    ];
    let sets = split_assets(&list).unwrap();
    assert_eq!(sets.native, vec!["usd".to_string(), "eur".to_string()]);
    assert_eq!(sets.cw20, vec![addr("token_b"), addr("token_a"), addr("usd")]);
    assert_eq!(
        sets.cw1155,
        vec![(addr("multi"), "1".to_string()), (addr("multi"), "2".to_string())]
    );
    assert_eq!(
        normalize_asset_whitelist(&list),
        Ok(vec![
            AssetInfo::native("usd"),
            AssetInfo::native("eur"),
            AssetInfo::cw20(addr("token_b")),
            AssetInfo::cw20(addr("token_a")),
            AssetInfo::cw20(addr("usd")),
            AssetInfo::cw1155(addr("multi"), "1"),
            AssetInfo::cw1155(addr("multi"), "2"),
        ])
    );
    assert_eq!(normalize_asset_whitelist(&vec![]), Ok(vec![]));
}

#[test]
fn whitelist_with_a_fault_is_refused() {
    let twice = vec![AssetInfo::native("usd"), AssetInfo::cw20(addr("usd")), AssetInfo::native("usd")];
    assert_eq!(normalize_asset_whitelist(&twice), Err(GovernanceControllerError::DuplicateAssetFound));
    let multi = vec![
        AssetInfo::cw1155(addr("multi"), "1"),
        AssetInfo::cw1155(addr("other"), "1"),
        AssetInfo::cw1155(addr("multi"), "1"),
    ];
    assert_eq!(split_assets(&multi), Err(GovernanceControllerError::DuplicateAssetFound));
    // the mock host takes no address of fewer than three letters
    let short = vec![AssetInfo::native("usd"), AssetInfo::cw20(addr("ab")), AssetInfo::native("usd")];
    assert_eq!(
        normalize_asset_whitelist(&short),
        Err(GovernanceControllerError::InvalidAddress { addr: "ab".to_string() })
    );
    let short_multi = vec![AssetInfo::cw1155(addr("x"), "1")];
    assert_eq!(
        split_assets(&short_multi),
        Err(GovernanceControllerError::InvalidAddress { addr: "x".to_string() })
    );
}

#[test]
fn asset_on_both_whitelist_changes_is_refused() {
    let add = vec![AssetInfo::native("usd"), AssetInfo::cw20(addr("token"))];
    let remove = vec![AssetInfo::native("eur"), AssetInfo::cw20(addr("token"))];
    assert_eq!(
        validate_asset_whitelist_changes(&add, &remove),
        Err(GovernanceControllerError::AssetPresentInBothAddAndRemove)
    );
    let natives = vec![AssetInfo::native("eur"), AssetInfo::native("usd")];
    assert_eq!(
        validate_asset_whitelist_changes(&add, &natives),
        Err(GovernanceControllerError::AssetPresentInBothAddAndRemove)
    );
    let multi = vec![AssetInfo::cw1155(addr("multi"), "1")];
    assert_eq!(
        validate_asset_whitelist_changes(&multi, &multi),
        Err(GovernanceControllerError::AssetPresentInBothAddAndRemove)
    );
    let other_id = vec![AssetInfo::cw1155(addr("multi"), "2"), AssetInfo::native("token")];
    assert_eq!(validate_asset_whitelist_changes(&multi, &other_id), Ok(()));
    assert_eq!(validate_asset_whitelist_changes(&add, &other_id), Ok(()));
    // a fault of the list to remove comes before an asset on both
    let faulty = vec![AssetInfo::native("usd"), AssetInfo::native("usd")];
    assert_eq!(
        validate_asset_whitelist_changes(&add, &faulty),
        Err(GovernanceControllerError::DuplicateAssetFound)
    );
}

#[test]
fn same_asset_is_same_kind_and_same_identifier() {
    assert!(is_same_asset(&AssetInfo::native("a"), &AssetInfo::native("a")));
    assert!(!is_same_asset(&AssetInfo::native("a"), &AssetInfo::native("b")));
    assert!(!is_same_asset(&AssetInfo::native("abc"), &AssetInfo::cw20(addr("abc"))));
    assert!(is_same_asset(&AssetInfo::cw20(addr("abc")), &AssetInfo::cw20(addr("abc"))));
    assert!(!is_same_asset(
        &AssetInfo::cw1155(addr("abc"), "1"),
        &AssetInfo::cw1155(addr("abc"), "2")
    ));
    assert!(is_same_asset(
        &AssetInfo::cw1155(addr("abc"), "1"),
        &AssetInfo::cw1155(addr("abc"), "1")
    ));
}

#[test]
fn nft_on_both_whitelist_changes_is_refused() {
    assert_eq!(
        validate_nft_whitelist_changes(&vec![addr("one"), addr("two")], &vec![addr("two")]),
        Err(GovernanceControllerError::NftPresentInBothAddAndRemove)
    );
    assert_eq!(
        validate_nft_whitelist_changes(&vec![addr("one"), addr("two")], &vec![addr("three")]),
        Ok(())
    );
    assert_eq!(
        validate_nft_whitelist_changes(&vec![addr("one")], &vec![addr("no")]),
        Err(GovernanceControllerError::InvalidAddress { addr: "no".to_string() })
    );
    assert_eq!(
        validate_nft_whitelist_changes(&vec![addr("one"), addr("one")], &vec![addr("no")]),
        Err(GovernanceControllerError::DuplicateNftFound)
    );
}

#[test]
fn multisig_edits_name_each_member_once() {
    let edit = |user: &str, weight: u128| UserWeight { user: addr(user), weight };
    let good = ModifyMultisigMembershipMsg { edit_members: vec![edit("alice", 1), edit("bob", 0)] };
    assert_eq!(validate_modify_multisig_membership(DaoType::Multisig, &good), Ok(()));
    let twice = ModifyMultisigMembershipMsg {
        edit_members: vec![edit("alice", 1), edit("bob", 0), edit("alice", 2)],
    };
    assert_eq!(
        validate_modify_multisig_membership(DaoType::Multisig, &twice),
        Err(GovernanceControllerError::DuplicateMultisigMemberWeightEdit)
    );
    let bad = ModifyMultisigMembershipMsg { edit_members: vec![edit("alice", 1), edit("", 0)] };
    assert_eq!(
        validate_modify_multisig_membership(DaoType::Multisig, &bad),
        Err(GovernanceControllerError::InvalidAddress { addr: "".to_string() })
    );
    assert_eq!(
        validate_modify_multisig_membership(DaoType::Token, &bad),
        Err(GovernanceControllerError::UnsupportedOperationForDaoType {
            dao_type: "Token".to_string()
        })
    );
    assert_eq!(DaoType::Multisig.name(), "Multisig");
}

#[test]
fn council_members_are_kept_in_order_and_named_once() {
    let members = vec![addr("carol"), addr("alice"), addr("bob")];
    assert_eq!(validate_no_duplicate_council_members(members.clone()), Ok(members.clone()));
    assert_eq!(check_council_members(&members), Ok(()));
    assert_eq!(validate_no_duplicate_council_members(vec![]), Ok(vec![]));
    assert_eq!(
        validate_no_duplicate_council_members(vec![addr("carol"), addr("alice"), addr("carol")]),
        Err(GovernanceControllerError::DuplicateCouncilMember { member: "carol".to_string() })
    );
    assert_eq!(
        validate_no_duplicate_council_members(vec![addr("carol"), addr("Upper")]),
        Err(GovernanceControllerError::InvalidAddress { addr: "Upper".to_string() })
    );
}

#[test]
fn council_may_only_propose_harmless_actions() {
    assert_eq!(validate_allowed_council_proposal_types(None), Ok(()));
    assert_eq!(validate_allowed_council_proposal_types(Some(vec![])), Ok(()));
    assert_eq!(
        validate_allowed_council_proposal_types(Some(vec![
            ProposalActionType::UpdateMetadata,
            ProposalActionType::UpdateAssetWhitelist,
            ProposalActionType::UpdateNftWhitelist,
            ProposalActionType::UpgradeDao,
        ])),
        Ok(())
    );
    for forbidden in [
        ProposalActionType::UpdateGovConfig,
        ProposalActionType::UpdateCouncil,
        ProposalActionType::RequestFundingFromDao,
        ProposalActionType::ExecuteMsgs,
        ProposalActionType::ModifyMultisigMembership,
        ProposalActionType::DistributeFunds,
        ProposalActionType::UpdateMinimumWeightForRewards,
    ] {
        assert_eq!(
            validate_allowed_council_proposal_types(Some(vec![
                ProposalActionType::UpgradeDao,
                forbidden,
                ProposalActionType::UpdateCouncil,
            ])),
            Err(GovernanceControllerError::UnsupportedCouncilProposalAction { action: forbidden })
        );
    }
}

#[test]
fn council_is_made_as_asked_for() {
    assert_eq!(validate_dao_council(None), Ok(None));
    assert_eq!(check_dao_council(&None), Ok(()));
    let asked = DaoCouncilSpec {
        members: vec![addr("alice"), addr("bob")],
        quorum: Decimal::percent(75),
        threshold: Decimal::percent(50),
        allowed_proposal_action_types: None,
    };
    assert_eq!(check_dao_council(&Some(asked.clone())), Ok(()));
    assert_eq!(
        validate_dao_council(Some(asked.clone())),
        Ok(Some(DaoCouncil {
            members: vec![addr("alice"), addr("bob")],
            allowed_proposal_action_types: vec![ProposalActionType::UpgradeDao],
            quorum: Decimal::percent(75),
            threshold: Decimal::percent(50),
        }))
    );
    let with_types = DaoCouncilSpec {
        allowed_proposal_action_types: Some(vec![
            ProposalActionType::UpdateMetadata,
            ProposalActionType::UpdateNftWhitelist,
        ]),
        ..asked.clone()
    };
    assert_eq!(
        validate_dao_council(Some(with_types)).unwrap().unwrap().allowed_proposal_action_types,
        vec![ProposalActionType::UpdateMetadata, ProposalActionType::UpdateNftWhitelist]
    );
    let no_quorum = DaoCouncilSpec {
        quorum: Decimal::zero(),
        threshold: Decimal::zero(),
        ..asked.clone()
    };
    assert_eq!(
        validate_dao_council(Some(no_quorum)),
        Err(invalid_argument("Invalid quorum, must be 0 < quorum <= 1"))
    );
    let no_threshold = DaoCouncilSpec { threshold: Decimal::percent(200), ..asked.clone() };
    assert_eq!(
        check_dao_council(&Some(no_threshold.clone())),
        Err(invalid_argument("Invalid threshold, must be 0 < threshold <= 1"))
    );
    assert_eq!(
        validate_dao_council(Some(no_threshold)),
        Err(invalid_argument("Invalid threshold, must be 0 < threshold <= 1"))
    );
    // the members are looked at first
    let twice = DaoCouncilSpec {
        members: vec![addr("alice"), addr("alice")],
        quorum: Decimal::zero(),
        allowed_proposal_action_types: Some(vec![ProposalActionType::ExecuteMsgs]),
        ..asked
    };
    assert_eq!(
        validate_dao_council(Some(twice)),
        Err(GovernanceControllerError::DuplicateCouncilMember { member: "alice".to_string() })
    );
}

#[test]
fn funds_of_an_unsupported_kind_are_refused() {
    let good = DistributeFundsMsg {
        funds: vec![
            Asset { info: AssetInfo::native("usd"), amount: 1 },
            Asset { info: AssetInfo::cw20(addr("token")), amount: 2 },
        ],
    };
    assert_eq!(validate_distribute_funds(&good), Ok(()));
    let bad = DistributeFundsMsg {
        funds: vec![
            Asset { info: AssetInfo::native("usd"), amount: 1 },
            Asset { info: AssetInfo::cw1155(addr("multi"), "1"), amount: 2 },
        ],
    };
    assert_eq!(
        validate_distribute_funds(&bad),
        Err(GovernanceControllerError::Std {
            msg: "cw1155 is not supported at this time".to_string()
        })
    );
}

#[test]
fn messages_for_the_chain_must_parse() {
    assert_eq!(execute_msg_verdict(true), Ok(()));
    assert_eq!(execute_msg_verdict(false), Err(GovernanceControllerError::InvalidCosmosMessage));
    let good = ExecuteMsgsMsg { action_type: "pay".to_string(), msgs: vec![SEND.to_string()] };
    assert_eq!(validate_execute_msgs(&good), Ok(()));
    let none = ExecuteMsgsMsg { action_type: "none".to_string(), msgs: vec![] };
    assert_eq!(validate_execute_msgs(&none), Ok(()));
    let second = ExecuteMsgsMsg {
        action_type: "pay".to_string(),
        msgs: vec![SEND.to_string(), r#"{"bank":{"send":{}}}"#.to_string()],
    };
    assert_eq!(validate_execute_msgs(&second), Err(GovernanceControllerError::InvalidCosmosMessage));
    let text = ExecuteMsgsMsg { action_type: "pay".to_string(), msgs: vec!["true".to_string()] };
    assert_eq!(validate_execute_msgs(&text), Err(GovernanceControllerError::InvalidCosmosMessage));
}

#[test]
fn upgrade_needs_no_check() {
    assert_eq!(validate_upgrade_dao(&UpgradeDaoMsg { new_dao_code_id: 2, migrate_msg: vec![] }), Ok(()));
}

#[test]
fn first_faulty_action_decides() {
    let config = stub_dao_gov_config();
    let harmless = vec![
        ProposalAction::UpgradeDao(UpgradeDaoMsg { new_dao_code_id: 2, migrate_msg: b"{}".to_vec() }),
        ProposalAction::RequestFundingFromDao(RequestFundingFromDaoMsg {
            recipient: "anyone".to_string(),
            assets: vec![],
        }),
        ProposalAction::UpdateMinimumWeightForRewards(UpdateMinimumWeightForRewardsMsg {
            minimum_weight_for_rewards: 3,
        }),
        ProposalAction::ExecuteMsgs(ExecuteMsgsMsg {
            action_type: "pay".to_string(),
            msgs: vec![SEND.to_string()],
        }),
        ProposalAction::UpdateGovConfig(UpdateGovConfigMsg {
            voting_duration: ModifyValue::Change(20),
            ..no_change()
        }),
    ];
    assert_eq!(validate_proposal_actions(&config, DaoType::Token, &harmless), Ok(()));
    assert_eq!(validate_proposal_actions(&config, DaoType::Token, &vec![]), Ok(()));

    let mut faulty = harmless.clone();
    faulty.push(ProposalAction::DistributeFunds(DistributeFundsMsg {
        funds: vec![Asset { info: AssetInfo::cw1155(addr("multi"), "1"), amount: 2 }],
    }));
    faulty.push(ProposalAction::UpdateGovConfig(UpdateGovConfigMsg {
        voting_duration: ModifyValue::Change(0),
        ..no_change()
    }));
    assert_eq!(
        validate_proposal_actions(&config, DaoType::Token, &faulty),
        Err(GovernanceControllerError::Std {
            msg: "cw1155 is not supported at this time".to_string()
        })
    );
    assert_eq!(
        validate_proposal_action(&config, DaoType::Token, &faulty[6]),
        Err(GovernanceControllerError::ZeroVoteDuration)
    );
    // a change of configuration is judged by what it would make
    let deposit = ProposalAction::UpdateGovConfig(UpdateGovConfigMsg {
        minimum_deposit: ModifyValue::Change(Some(5)),
        ..no_change()
    });
    assert_eq!(validate_proposal_action(&config, DaoType::Token, &deposit), Ok(()));
    assert_eq!(
        validate_proposal_action(&config, DaoType::Multisig, &deposit),
        Err(GovernanceControllerError::MinimumDepositNotAllowed)
    );
}
