//! Setting a ledger up from its first message, and answering queries.

use vstd::prelude::*;
use crate::api::{MinimumEligibleWeightResponse, UpdateUserWeightsMsg, UserRewardsResponse};
use crate::error::DistributorError;
use crate::model::DistributorView;
use crate::msg::{InstantiateMsg, QueryMsg};
use crate::state::{views, Distributor};
use crate::weights::pairs;

verus! {

/// The answer to a query.
#[derive(Clone, Debug, PartialEq, Eq)]
pub enum QueryResponse {
    UserRewards(UserRewardsResponse),
    MinimumEligibleWeight(MinimumEligibleWeightResponse),
}

/// The minimum that a message asks for: zero where it names none.
pub open spec fn minimum_or_zero(minimum: Option<u128>) -> nat {
    match minimum {
        Some(m) => m as nat,
        None => 0,
    }
}

/// Makes the ledger that `msg` describes: empty but for the members of
/// `msg.initial_weights`, whose weights are set as a batch of weight changes
/// sets them. Who may administer the ledger is for the host to keep.
pub fn instantiate(msg: InstantiateMsg) -> (r: Result<Distributor, DistributorError>)
    ensures
        match DistributorView::empty(minimum_or_zero(msg.minimum_eligible_weight)).update_weights_error(
            views(msg.initial_weights@),
        ) {
            Some(e) => r == Err::<Distributor, DistributorError>(e),
            None => r matches Ok(d) && d.wf() && d@ == DistributorView::empty(
                minimum_or_zero(msg.minimum_eligible_weight),
            ).update_weights(pairs(views(msg.initial_weights@))),
        },
{
    let minimum = match msg.minimum_eligible_weight {
        Some(m) => m,
        None => 0,
    };
    let mut ledger = Distributor::new(minimum);
    let batch = UpdateUserWeightsMsg { new_user_weights: msg.initial_weights };
    match ledger.update_user_weights(&batch) {
        Ok(_) => Ok(ledger),
        Err(e) => Err(e),
    }
}

/// Answers a query. Nothing is written.
pub fn query(ctx: &Distributor, msg: &QueryMsg) -> (r: Result<QueryResponse, DistributorError>)
    requires
        ctx.wf(),
    ensures
        match msg {
            QueryMsg::UserRewards(params) => match r {
                Ok(QueryResponse::UserRewards(response)) => params.user.valid && views(
                    response.rewards@,
                ) == ctx@.user_rewards(params.user.text@),
                Ok(_) => false,
                Err(e) => !params.user.valid && e == DistributorError::InvalidMember,
            },
            QueryMsg::MinimumEligibleWeight {  } => r matches Ok(
                QueryResponse::MinimumEligibleWeight(response),
            ) && response.minimum_eligible_weight == ctx@.minimum_eligible_weight,
        },
{
    match msg {
        QueryMsg::UserRewards(params) => {
            match ctx.user_rewards(params) {
                Ok(response) => Ok(QueryResponse::UserRewards(response)),
                Err(e) => Err(e),
            }
        },
        QueryMsg::MinimumEligibleWeight {  } => Ok(
            QueryResponse::MinimumEligibleWeight(ctx.minimum_eligible_weight()),
        ),
    }
}

} // verus!
