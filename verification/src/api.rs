//! What the ledger's messages carry and what its queries answer.

use vstd::prelude::*;
use crate::asset::{Addr, AddrView, AssetId};
use crate::model::AssetIdView;
use crate::state::views;

verus! {

/// A member and the weight it is to have.
#[derive(Clone, Debug, PartialEq, Eq)]
pub struct UserWeight {
    pub user: Addr,
    pub weight: u128,
}

/// A `UserWeight` as a mathematical value.
pub struct UserWeightView {
    pub user: AddrView,
    pub weight: nat,
}

impl View for UserWeight {
    type V = UserWeightView;

    open spec fn view(&self) -> UserWeightView {
        UserWeightView { user: self.user@, weight: self.weight as nat }
    }
}

/// A batch of weight changes, applied in the order given.
#[derive(Clone, Debug, PartialEq, Eq)]
pub struct UpdateUserWeightsMsg {
    pub new_user_weights: Vec<UserWeight>,
}

impl View for UpdateUserWeightsMsg {
    type V = Seq<UserWeightView>;

    open spec fn view(&self) -> Seq<UserWeightView> {
        views(self.new_user_weights@)
    }
}

/// The new floor under which a weight counts for nothing.
#[derive(Clone, Copy, Debug, PartialEq, Eq)]
pub struct UpdateMinimumEligibleWeightMsg {
    pub minimum_eligible_weight: u128,
}

/// A claim of `user` on the native denominations and token contracts named.
#[derive(Clone, Debug, PartialEq, Eq)]
pub struct ClaimRewardsMsg {
    pub user: Addr,
    pub native_denoms: Vec<String>,
    pub cw20_assets: Vec<Addr>,
}

/// A `ClaimRewardsMsg` as a mathematical value.
pub struct ClaimRewardsMsgView {
    pub user: AddrView,
    pub native_denoms: Seq<Seq<char>>,
    pub cw20_assets: Seq<AddrView>,
}

impl View for ClaimRewardsMsg {
    type V = ClaimRewardsMsgView;

    open spec fn view(&self) -> ClaimRewardsMsgView {
        ClaimRewardsMsgView {
            user: self.user@,
            native_denoms: views(self.native_denoms@),
            cw20_assets: views(self.cw20_assets@),
        }
    }
}

impl ClaimRewardsMsgView {
    /// The assets claimed, in the order in which they are claimed: the native
    /// denominations first, then the token contracts.
    pub open spec fn assets(self) -> Seq<AssetIdView> {
        Seq::new(self.native_denoms.len(), |i: int| AssetIdView::Native(self.native_denoms[i]))
            + Seq::new(
            self.cw20_assets.len(),
            |i: int| AssetIdView::Cw20(self.cw20_assets[i].text),
        )
    }
}

/// Whose claimable rewards are asked for.
#[derive(Clone, Debug, PartialEq, Eq)]
pub struct UserRewardsParams {
    pub user: Addr,
}

/// What a member could claim of one asset.
#[derive(Clone, Debug, PartialEq, Eq)]
pub struct UserReward {
    pub asset: AssetId,
    pub amount: u128,
}

/// A `UserReward` as a mathematical value.
pub struct UserRewardView {
    pub asset: AssetIdView,
    pub amount: nat,
}

impl View for UserReward {
    type V = UserRewardView;

    open spec fn view(&self) -> UserRewardView {
        UserRewardView { asset: self.asset@, amount: self.amount as nat }
    }
}

/// What a member could claim of each asset that was ever distributed.
#[derive(Clone, Debug, PartialEq, Eq)]
pub struct UserRewardsResponse {
    pub rewards: Vec<UserReward>,
}

#[derive(Clone, Copy, Debug, PartialEq, Eq)]
pub struct MinimumEligibleWeightResponse {
    pub minimum_eligible_weight: u128,
}

} // verus!
