use enterprise::api::{
    ClaimRewardsMsg, UpdateMinimumEligibleWeightMsg, UpdateUserWeightsMsg, UserReward,
    UserRewardsParams, UserWeight,
};
use enterprise::asset::{Addr, AssetId, AssetInfo};
use enterprise::claim::{claim_rewards, Transfer};
use enterprise::contract::{instantiate, query, QueryResponse};
use enterprise::decimal::Decimal;
use enterprise::error::DistributorError;
use enterprise::msg::{InstantiateMsg, QueryMsg};
use enterprise::state::{Distributor, Ledger, Member};

fn addr(text: &str) -> Addr {
    Addr::new(text.to_string(), true)
}

fn rejected(text: &str) -> Addr {
    Addr::new(text.to_string(), false)
}

fn weights(entries: &[(&str, u128)]) -> UpdateUserWeightsMsg {
    UpdateUserWeightsMsg {
        new_user_weights: entries
            .iter()
            .map(|(user, weight)| UserWeight { user: addr(user), weight: *weight })
            .collect(),
    }
}

fn claim_native(user: &str, denom: &str) -> ClaimRewardsMsg {
    ClaimRewardsMsg { user: addr(user), native_denoms: vec![denom.to_string()], cw20_assets: vec![] }
}

fn usd() -> AssetId {
    AssetId::native("usd")
}

fn native_transfer(to: &str, denom: &str, amount: u128) -> Transfer {
    Transfer { recipient: to.to_string(), asset: AssetId::native(denom), amount }
}

/// All that the ledger holds.
fn snapshot(d: &Distributor) -> (u128, u128, Vec<Member>, Vec<Ledger>) {
    (
        d.minimum_eligible_weight().minimum_eligible_weight,
        d.total_eligible_weight(),
        d.members().clone(),
        d.ledgers().clone(),
    )
}

fn ledger(minimum: u128, entries: &[(&str, u128)]) -> Distributor {
    let mut d = Distributor::new(minimum);
    d.update_user_weights(&weights(entries)).unwrap();
    d
}

#[test]
fn sixty_forty_split_of_one_hundred() {
    let mut d = ledger(0, &[("alice", 60), ("bob", 40)]);
    assert_eq!(d.total_eligible_weight(), 100);

    d.distribute(&AssetInfo::native("usd"), 100).unwrap();
    assert_eq!(d.global_index(&usd()), Decimal::one());

    let first = claim_rewards(&mut d, claim_native("alice", "usd")).unwrap();
    assert_eq!(first, vec![native_transfer("alice", "usd", 60)]);
    let second = claim_rewards(&mut d, claim_native("bob", "usd")).unwrap();
    assert_eq!(second, vec![native_transfer("bob", "usd", 40)]);
    let again = claim_rewards(&mut d, claim_native("alice", "usd")).unwrap();
    assert_eq!(again, vec![]);
    assert_eq!(d.total_claimed(&usd()), 100);
}

#[test]
fn distribute_without_eligible_weight_fails() {
    let mut d = Distributor::new(0);
    let before = snapshot(&d);
    assert_eq!(
        d.distribute(&AssetInfo::native("usd"), 100),
        Err(DistributorError::NoEligibleRecipients)
    );
    assert_eq!(snapshot(&d), before);
    assert_eq!(d.total_distributed(&usd()), 0);
}

#[test]
fn distribute_with_only_ineligible_members_fails() {
    let mut d = ledger(10, &[("alice", 9), ("bob", 3)]);
    assert_eq!(d.total_eligible_weight(), 0);
    assert_eq!(
        d.distribute(&AssetInfo::native("usd"), 100),
        Err(DistributorError::NoEligibleRecipients)
    );
}

#[test]
fn rewards_before_a_weight_change_use_the_old_weight() {
    let mut d = ledger(0, &[("m", 10), ("n", 10)]);
    d.distribute(&AssetInfo::native("usd"), 100).unwrap();
    assert_eq!(d.global_index(&usd()), Decimal::raw(5_000_000_000_000_000_000));
    assert_eq!(d.claimable(&"m".to_string(), &usd()), 50);

    d.update_user_weights(&weights(&[("m", 20)])).unwrap();
    assert_eq!(d.total_eligible_weight(), 30);
    assert_eq!(d.claimable(&"m".to_string(), &usd()), 50);

    d.distribute(&AssetInfo::native("usd"), 300).unwrap();
    assert_eq!(d.global_index(&usd()), Decimal::raw(15_000_000_000_000_000_000));
    // 10 * 5 for the first distribution, 20 * 10 for the second: not 20 * 15
    assert_eq!(d.claimable(&"m".to_string(), &usd()), 250);
    assert_eq!(d.claimable(&"n".to_string(), &usd()), 150);

    let paid = claim_rewards(&mut d, claim_native("m", "usd")).unwrap();
    assert_eq!(paid, vec![native_transfer("m", "usd", 250)]);
}

#[test]
fn rounding_never_pays_more_than_was_distributed() {
    let mut d = ledger(0, &[("a", 1), ("b", 1), ("c", 1)]);
    d.distribute(&AssetInfo::native("usd"), 100).unwrap();
    assert_eq!(d.global_index(&usd()), Decimal::raw(33_333_333_333_333_333_333));
    let members = ["a", "b", "c"];
    let claimable: u128 = members.iter().map(|m| d.claimable(&m.to_string(), &usd())).sum();
    assert_eq!(claimable, 99);
    assert!(claimable + d.total_claimed(&usd()) <= d.total_distributed(&usd()));

    claim_rewards(&mut d, claim_native("a", "usd")).unwrap();
    d.distribute(&AssetInfo::native("usd"), 1).unwrap();
    d.distribute(&AssetInfo::native("usd"), 7).unwrap();
    let claimable: u128 = members.iter().map(|m| d.claimable(&m.to_string(), &usd())).sum();
    assert_eq!(d.total_distributed(&usd()), 108);
    assert_eq!(d.total_claimed(&usd()), 33);
    assert!(claimable + d.total_claimed(&usd()) <= d.total_distributed(&usd()));
    for m in members {
        claim_rewards(&mut d, claim_native(m, "usd")).unwrap();
    }
    assert!(d.total_claimed(&usd()) <= 108);
    assert_eq!(d.total_claimed(&usd()), 33 + 2 + 35 + 35);
}

#[test]
fn equal_weights_earn_equal_rewards() {
    let mut d = ledger(0, &[("a", 7), ("b", 7), ("c", 3)]);
    for amount in [1u128, 10, 99, 12345, 7] {
        d.distribute(&AssetInfo::native("usd"), amount).unwrap();
        assert_eq!(
            d.claimable(&"a".to_string(), &usd()),
            d.claimable(&"b".to_string(), &usd())
        );
    }
    assert_eq!(d.claimable(&"a".to_string(), &usd()), 5131);
}

#[test]
fn claim_with_nothing_pending_gives_no_transfer_and_changes_nothing() {
    let mut d = ledger(0, &[("alice", 60), ("bob", 40)]);
    d.distribute(&AssetInfo::native("usd"), 100).unwrap();
    claim_rewards(&mut d, claim_native("alice", "usd")).unwrap();
    let before = snapshot(&d);
    let again = claim_rewards(&mut d, claim_native("alice", "usd")).unwrap();
    assert_eq!(again, vec![]);
    assert_eq!(snapshot(&d), before);
}

#[test]
fn claim_on_an_asset_never_distributed_writes_nothing() {
    let mut d = ledger(0, &[("alice", 60)]);
    let before = snapshot(&d);
    let got = claim_rewards(&mut d, claim_native("alice", "eur")).unwrap();
    assert_eq!(got, vec![]);
    assert_eq!(snapshot(&d), before);
    let got = claim_rewards(&mut d, claim_native("stranger", "eur")).unwrap();
    assert_eq!(got, vec![]);
    assert_eq!(snapshot(&d), before);
}

#[test]
fn member_at_the_minimum_is_eligible_and_one_below_is_not() {
    let mut d = ledger(10, &[("at", 10), ("below", 9), ("above", 25)]);
    assert_eq!(d.effective_user_weight(&"at".to_string()), 10);
    assert_eq!(d.effective_user_weight(&"below".to_string()), 0);
    assert_eq!(d.user_weight(&"below".to_string()), 9);
    assert_eq!(d.total_eligible_weight(), 35);

    d.distribute(&AssetInfo::native("usd"), 70).unwrap();
    assert_eq!(d.claimable(&"at".to_string(), &usd()), 20);
    assert_eq!(d.claimable(&"below".to_string(), &usd()), 0);
    assert_eq!(d.claimable(&"above".to_string(), &usd()), 50);

    // dropping below the minimum takes the whole prior weight off the total
    d.update_user_weights(&weights(&[("at", 9)])).unwrap();
    assert_eq!(d.total_eligible_weight(), 25);
    assert_eq!(d.effective_user_weight(&"at".to_string()), 0);
    // what was earned while eligible stays
    assert_eq!(d.claimable(&"at".to_string(), &usd()), 20);
    d.distribute(&AssetInfo::native("usd"), 50).unwrap();
    assert_eq!(d.claimable(&"at".to_string(), &usd()), 20);
    assert_eq!(d.claimable(&"above".to_string(), &usd()), 100);

    // and reaching it again adds the new weight
    d.update_user_weights(&weights(&[("below", 10)])).unwrap();
    assert_eq!(d.total_eligible_weight(), 35);
    assert_eq!(d.claimable(&"below".to_string(), &usd()), 0);
}

#[test]
fn a_new_minimum_applies_from_the_next_weight_change() {
    let mut d = ledger(0, &[("a", 5), ("b", 15)]);
    d.update_minimum_eligible_weight(UpdateMinimumEligibleWeightMsg { minimum_eligible_weight: 10 });
    assert_eq!(d.minimum_eligible_weight().minimum_eligible_weight, 10);
    assert_eq!(d.total_eligible_weight(), 20);
    assert_eq!(d.effective_user_weight(&"a".to_string()), 5);
    d.update_user_weights(&weights(&[("a", 5)])).unwrap();
    assert_eq!(d.effective_user_weight(&"a".to_string()), 0);
    assert_eq!(d.total_eligible_weight(), 15);
}

#[test]
fn a_member_that_joins_late_earns_nothing_from_before() {
    let mut d = ledger(0, &[("early", 10)]);
    d.distribute(&AssetInfo::native("usd"), 100).unwrap();
    d.update_user_weights(&weights(&[("late", 10)])).unwrap();
    assert_eq!(d.claimable(&"late".to_string(), &usd()), 0);
    d.distribute(&AssetInfo::native("usd"), 100).unwrap();
    assert_eq!(d.claimable(&"late".to_string(), &usd()), 50);
    assert_eq!(d.claimable(&"early".to_string(), &usd()), 150);
}

#[test]
fn claim_pays_native_assets_first_then_tokens_in_the_order_named() {
    let mut d = ledger(0, &[("alice", 1)]);
    d.distribute(&AssetInfo::cw20(addr("token_b")), 5).unwrap();
    d.distribute(&AssetInfo::native("usd"), 7).unwrap();
    d.distribute(&AssetInfo::cw20(addr("token_a")), 3).unwrap();
    d.distribute(&AssetInfo::native("eur"), 9).unwrap();
    let msg = ClaimRewardsMsg {
        user: addr("alice"),
        native_denoms: vec!["eur".to_string(), "gbp".to_string(), "usd".to_string()],
        cw20_assets: vec![addr("token_a"), addr("token_b")],
    };
    let got = claim_rewards(&mut d, msg).unwrap();
    assert_eq!(
        got,
        vec![
            native_transfer("alice", "eur", 9),
            native_transfer("alice", "usd", 7),
            Transfer { recipient: "alice".to_string(), asset: AssetId::cw20("token_a"), amount: 3 },
            Transfer { recipient: "alice".to_string(), asset: AssetId::cw20("token_b"), amount: 5 },
        ]
    );
    assert_eq!(d.total_claimed(&AssetId::cw20("token_a")), 3);
}

#[test]
fn native_and_token_of_the_same_name_are_different_assets() {
    let mut d = ledger(0, &[("alice", 1)]);
    d.distribute(&AssetInfo::native("same"), 7).unwrap();
    assert_eq!(d.claimable(&"alice".to_string(), &AssetId::cw20("same")), 0);
    assert_eq!(d.claimable(&"alice".to_string(), &AssetId::native("same")), 7);
    assert!(!AssetId::native("same").same_as(&AssetId::cw20("same")));
    assert!(AssetId::native("same").same_as(&AssetId::native("same")));
}

#[test]
fn claim_by_a_rejected_address_fails_and_changes_nothing() {
    let mut d = ledger(0, &[("alice", 60)]);
    d.distribute(&AssetInfo::native("usd"), 100).unwrap();
    let before = snapshot(&d);
    let msg = ClaimRewardsMsg {
        user: rejected("alice"),
        native_denoms: vec!["usd".to_string()],
        cw20_assets: vec![],
    };
    assert_eq!(claim_rewards(&mut d, msg), Err(DistributorError::InvalidMember));
    assert_eq!(snapshot(&d), before);
}

#[test]
fn claim_on_a_rejected_token_fails_and_changes_nothing() {
    let mut d = ledger(0, &[("alice", 60)]);
    d.distribute(&AssetInfo::native("usd"), 100).unwrap();
    let before = snapshot(&d);
    let msg = ClaimRewardsMsg {
        user: addr("alice"),
        native_denoms: vec!["usd".to_string()],
        cw20_assets: vec![addr("good"), rejected("bad")],
    };
    assert_eq!(claim_rewards(&mut d, msg), Err(DistributorError::InvalidAssetIdentity));
    assert_eq!(snapshot(&d), before);
}

#[test]
fn weight_update_with_a_rejected_address_fails_and_changes_nothing() {
    let mut d = ledger(0, &[("alice", 60)]);
    let before = snapshot(&d);
    let msg = UpdateUserWeightsMsg {
        new_user_weights: vec![
            UserWeight { user: addr("bob"), weight: 1 },
            UserWeight { user: rejected("carol"), weight: 2 },
        ],
    };
    assert_eq!(d.update_user_weights(&msg), Err(DistributorError::InvalidMember));
    assert_eq!(snapshot(&d), before);
}

#[test]
fn weight_update_naming_a_member_twice_fails_and_changes_nothing() {
    let mut d = ledger(0, &[("alice", 60)]);
    let before = snapshot(&d);
    assert_eq!(
        d.update_user_weights(&weights(&[("bob", 1), ("alice", 2), ("bob", 3)])),
        Err(DistributorError::DuplicateMemberInBatch)
    );
    assert_eq!(snapshot(&d), before);
}

#[test]
fn weight_update_beyond_the_range_fails_and_changes_nothing() {
    let mut d = ledger(0, &[("alice", u128::MAX - 5)]);
    let before = snapshot(&d);
    assert_eq!(
        d.update_user_weights(&weights(&[("bob", 5), ("carol", 1)])),
        Err(DistributorError::Overflow)
    );
    assert_eq!(snapshot(&d), before);
    // a batch that passes through the top of the range on its way is refused as well
    assert_eq!(
        d.update_user_weights(&weights(&[("bob", 6), ("alice", 0)])),
        Err(DistributorError::Overflow)
    );
    assert_eq!(snapshot(&d), before);
    d.update_user_weights(&weights(&[("alice", 0), ("bob", 6)])).unwrap();
    assert_eq!(d.total_eligible_weight(), 6);
}

#[test]
fn distribute_of_an_unsupported_kind_fails() {
    let mut d = ledger(0, &[("alice", 60)]);
    let before = snapshot(&d);
    assert_eq!(
        d.distribute(&AssetInfo::cw1155(addr("multi"), "7"), 1),
        Err(DistributorError::UnsupportedAssetKind)
    );
    assert_eq!(
        d.distribute(&AssetInfo::cw20(rejected("token")), 1),
        Err(DistributorError::InvalidAssetIdentity)
    );
    assert_eq!(snapshot(&d), before);
}

#[test]
fn distribute_beyond_the_range_fails_and_changes_nothing() {
    let mut d = ledger(0, &[("alice", 1)]);
    let before = snapshot(&d);
    // the index would need more than 128 bits
    assert_eq!(
        d.distribute(&AssetInfo::native("usd"), u128::MAX),
        Err(DistributorError::Overflow)
    );
    assert_eq!(snapshot(&d), before);
    let most = u128::MAX / 1_000_000_000_000_000_000;
    d.distribute(&AssetInfo::native("usd"), most).unwrap();
    let before = snapshot(&d);
    assert_eq!(d.distribute(&AssetInfo::native("usd"), 1), Err(DistributorError::Overflow));
    assert_eq!(snapshot(&d), before);
    assert_eq!(d.claimable(&"alice".to_string(), &usd()), most);
}

#[test]
fn distribute_of_dust_moves_the_index_by_less_than_a_unit() {
    let mut d = ledger(0, &[("alice", 3), ("bob", 1)]);
    d.distribute(&AssetInfo::native("usd"), 1).unwrap();
    assert_eq!(d.global_index(&usd()), Decimal::raw(250_000_000_000_000_000));
    assert_eq!(d.claimable(&"alice".to_string(), &usd()), 0);
    d.distribute(&AssetInfo::native("usd"), 1).unwrap();
    assert_eq!(d.claimable(&"alice".to_string(), &usd()), 1);
    assert_eq!(d.claimable(&"bob".to_string(), &usd()), 0);
}

#[test]
fn user_rewards_lists_every_known_asset() {
    let mut d = ledger(0, &[("alice", 1), ("bob", 3)]);
    d.distribute(&AssetInfo::native("usd"), 8).unwrap();
    d.distribute(&AssetInfo::cw20(addr("token")), 4).unwrap();
    let got = d.user_rewards(&UserRewardsParams { user: addr("bob") }).unwrap();
    assert_eq!(
        got.rewards,
        vec![
            UserReward { asset: usd(), amount: 6 },
            UserReward { asset: AssetId::cw20("token"), amount: 3 },
        ]
    );
    let nobody = d.user_rewards(&UserRewardsParams { user: addr("nobody") }).unwrap();
    assert_eq!(
        nobody.rewards,
        vec![
            UserReward { asset: usd(), amount: 0 },
            UserReward { asset: AssetId::cw20("token"), amount: 0 },
        ]
    );
    assert_eq!(
        d.user_rewards(&UserRewardsParams { user: rejected("bob") }),
        Err(DistributorError::InvalidMember)
    );
}

#[test]
fn queries_answer_from_the_ledger() {
    let d = instantiate(InstantiateMsg {
        admin: addr("admin"),
        enterprise_contract: addr("enterprise"),
        initial_weights: vec![UserWeight { user: addr("alice"), weight: 4 }],
        minimum_eligible_weight: Some(2),
    })
    .unwrap();
    assert_eq!(d.total_eligible_weight(), 4);
    match query(&d, &QueryMsg::MinimumEligibleWeight {}).unwrap() {
        QueryResponse::MinimumEligibleWeight(r) => assert_eq!(r.minimum_eligible_weight, 2),
        other => panic!("unexpected answer {:?}", other),
    }
    match query(&d, &QueryMsg::UserRewards(UserRewardsParams { user: addr("alice") })).unwrap() {
        QueryResponse::UserRewards(r) => assert_eq!(r.rewards, vec![]),
        other => panic!("unexpected answer {:?}", other),
    }
}

#[test]
fn instantiate_without_minimum_counts_every_weight() {
    let d = instantiate(InstantiateMsg {
        admin: addr("admin"),
        enterprise_contract: addr("enterprise"),
        initial_weights: vec![
            UserWeight { user: addr("alice"), weight: 0 },
            UserWeight { user: addr("bob"), weight: 1 },
        ],
        minimum_eligible_weight: None,
    })
    .unwrap();
    assert_eq!(d.minimum_eligible_weight().minimum_eligible_weight, 0);
    assert_eq!(d.total_eligible_weight(), 1);
    let twice = instantiate(InstantiateMsg {
        admin: addr("admin"),
        enterprise_contract: addr("enterprise"),
        initial_weights: vec![
            UserWeight { user: addr("alice"), weight: 0 },
            UserWeight { user: addr("alice"), weight: 1 },
        ],
        minimum_eligible_weight: None,
    });
    assert_eq!(twice.err(), Some(DistributorError::DuplicateMemberInBatch));
}

#[test]
fn error_messages_differ() {
    let all = [
        DistributorError::NoEligibleRecipients,
        DistributorError::InvalidMember,
        DistributorError::InvalidAssetIdentity,
        DistributorError::DuplicateMemberInBatch,
        DistributorError::UnsupportedAssetKind,
        DistributorError::Overflow,
    ];
    assert_eq!(
        DistributorError::NoEligibleRecipients.message(),
        "no eligible recipients: the total eligible weight is zero"
    );
    assert_eq!(DistributorError::Overflow.message(), "arithmetic overflow");
    for (i, a) in all.iter().enumerate() {
        for b in all.iter().skip(i + 1) {
            assert_ne!(a.message(), b.message());
        }
    }
}
