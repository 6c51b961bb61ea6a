//! The messages of the ledger's boundary.

use vstd::prelude::*;
use crate::api::{
    ClaimRewardsMsg, UpdateMinimumEligibleWeightMsg, UpdateUserWeightsMsg, UserRewardsParams,
    UserWeight,
};
use crate::asset::Addr;

verus! {

/// What a ledger starts from.
#[derive(Clone, Debug, PartialEq, Eq)]
pub struct InstantiateMsg {
    pub admin: Addr,
    pub enterprise_contract: Addr,
    pub initial_weights: Vec<UserWeight>,
    /// The weight that a member must have to take part in distributions;
    /// zero where none is given.
    pub minimum_eligible_weight: Option<u128>,
}

/// What a token contract sends along with tokens it has moved to the ledger.
#[derive(Clone, Debug, PartialEq, Eq)]
pub struct Cw20ReceiveMsg {
    pub sender: String,
    pub amount: u128,
    pub msg: Vec<u8>,
}

#[derive(Clone, Debug, PartialEq, Eq)]
pub enum ExecuteMsg {
    UpdateUserWeights(UpdateUserWeightsMsg),
    UpdateMinimumEligibleWeight(UpdateMinimumEligibleWeightMsg),
    DistributeNative {  },
    ClaimRewards(ClaimRewardsMsg),
    Receive(Cw20ReceiveMsg),
}

/// What the payload of a `Cw20ReceiveMsg` can ask for.
#[derive(Clone, Copy, Debug, PartialEq, Eq)]
pub enum Cw20HookMsg {
    Distribute {  },
}

#[derive(Clone, Debug, PartialEq, Eq)]
pub enum QueryMsg {
    UserRewards(UserRewardsParams),
    MinimumEligibleWeight {  },
}

#[derive(Clone, Debug, PartialEq, Eq)]
pub struct MigrateMsg {
    pub new_admin: String,
    pub new_enterprise_contract: String,
}

} // verus!
