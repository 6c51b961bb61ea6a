//! Reading the ledger. Nothing here writes: what a member could claim is
//! computed as a settlement would compute it.

use vstd::prelude::*;
use crate::api::{
    MinimumEligibleWeightResponse, UserReward, UserRewardView, UserRewardsParams,
    UserRewardsResponse,
};
use crate::asset::AssetId;
use crate::decimal::Decimal;
use crate::error::DistributorError;
use crate::keyed::lemma_found_at;
use crate::model::{DistributorView, MemberView};
use crate::state::{find_ledger, views, Distributor};

verus! {

impl DistributorView {
    /// What `addr` could claim of each known asset, in the order in which the
    /// assets were first distributed.
    pub open spec fn user_rewards(self, addr: Seq<char>) -> Seq<UserRewardView> {
        Seq::new(
            self.ledgers.len(),
            |j: int|
                UserRewardView {
                    asset: self.ledgers[j].asset,
                    amount: self.member(addr).claimable(self.ledgers[j]),
                },
        )
    }
}

/// A member that was never heard of can claim nothing.
pub proof fn lemma_blank_claims_nothing(addr: Seq<char>, l: crate::model::LedgerView)
    ensures
        MemberView::blank(addr).claimable(l) == 0,
{
    let b = MemberView::blank(addr);
    assert(b.record(l.asset) == crate::model::RecordView::blank(l.asset));
    assert(0 * b.index_gap(l) == 0) by (nonlinear_arith);
}

impl Distributor {
    /// What `params.user` could claim of each asset that was ever distributed,
    /// or `InvalidMember` where the host rejected the address.
    pub fn user_rewards(&self, params: &UserRewardsParams) -> (r: Result<
        UserRewardsResponse,
        DistributorError,
    >)
        requires
            self.wf(),
        ensures
            match r {
                Ok(response) => params.user.valid && views(response.rewards@)
                    == self@.user_rewards(params.user.text@),
                Err(e) => !params.user.valid && e == DistributorError::InvalidMember,
            },
    {
        if !params.user.valid {
            return Err(DistributorError::InvalidMember);
        }
        let ghost addr = params.user.text@;
        let found = self.lookup(&params.user.text);
        proof {
            if let Some(mi) = found {
                assert(self@.members[mi as int] == self.members[mi as int]@);
                lemma_found_at(self@.members, mi as int);
            }
        }
        let mut rewards: Vec<UserReward> = Vec::new();
        let n = self.ledgers.len();
        let mut li: usize = 0;
        while li < n
            invariant
                li <= n,
                n == self.ledgers.len(),
                self.wf(),
                addr == params.user.text@,
                match found {
                    Some(mi) => mi < self.members.len() && self@.members[mi as int]
                        == self@.member(addr),
                    None => self@.member(addr) == MemberView::blank(addr),
                },
                rewards.len() == li,
                forall|j: int|
                    0 <= j < li ==> (#[trigger] rewards[j])@ == self@.user_rewards(addr)[j],
            decreases n - li,
        {
            let amount = match found {
                Some(mi) => self.claimable_at(mi, li),
                None => {
                    proof {
                        lemma_blank_claims_nothing(addr, self@.ledgers[li as int]);
                    }
                    0
                },
            };
            proof {
                assert(self@.ledgers[li as int] == self.ledgers[li as int]@);
            }
            rewards.push(UserReward { asset: self.ledgers[li].asset.duplicate(), amount });
            li += 1;
        }
        proof {
            assert(views(rewards@) =~= self@.user_rewards(addr));
        }
        Ok(UserRewardsResponse { rewards })
    }

    /// The floor under which a weight counts for nothing.
    pub fn minimum_eligible_weight(&self) -> (r: MinimumEligibleWeightResponse)
        ensures
            r.minimum_eligible_weight == self@.minimum_eligible_weight,
    {
        MinimumEligibleWeightResponse { minimum_eligible_weight: self.minimum_eligible_weight }
    }

    /// The sum of the weights that count.
    pub fn total_eligible_weight(&self) -> (w: u128)
        ensures
            w == self@.total_eligible_weight,
    {
        self.total_eligible_weight
    }

    /// The weight of `addr`: zero for a member that was never given one.
    pub fn user_weight(&self, addr: &String) -> (w: u128)
        requires
            self.wf(),
        ensures
            w == self@.member(addr@).weight,
    {
        match self.lookup(addr) {
            Some(mi) => {
                proof {
                    assert(self@.members[mi as int] == self.members[mi as int]@);
                    lemma_found_at(self@.members, mi as int);
                }
                self.members[mi].weight
            },
            None => 0,
        }
    }

    /// The weight of `addr` that counts towards distributions.
    pub fn effective_user_weight(&self, addr: &String) -> (w: u128)
        requires
            self.wf(),
        ensures
            w == self@.member(addr@).effective_weight,
    {
        match self.lookup(addr) {
            Some(mi) => {
                proof {
                    assert(self@.members[mi as int] == self.members[mi as int]@);
                    lemma_found_at(self@.members, mi as int);
                }
                self.members[mi].effective_weight
            },
            None => 0,
        }
    }

    /// The index of `asset`: zero for an asset that was never distributed.
    pub fn global_index(&self, asset: &AssetId) -> (index: Decimal)
        requires
            self.wf(),
        ensures
            index@ == self@.ledger(asset@).global_index,
    {
        match find_ledger(&self.ledgers, asset) {
            Some(li) => {
                proof {
                    assert(self@.ledgers[li as int] == self.ledgers[li as int]@);
                    lemma_found_at(self@.ledgers, li as int);
                }
                self.ledgers[li].global_index
            },
            None => Decimal::zero(),
        }
    }

    /// How much of `asset` was ever distributed.
    pub fn total_distributed(&self, asset: &AssetId) -> (amount: u128)
        requires
            self.wf(),
        ensures
            amount == self@.ledger(asset@).total_distributed,
    {
        match find_ledger(&self.ledgers, asset) {
            Some(li) => {
                proof {
                    assert(self@.ledgers[li as int] == self.ledgers[li as int]@);
                    lemma_found_at(self@.ledgers, li as int);
                }
                self.ledgers[li].total_distributed
            },
            None => 0,
        }
    }

    /// How much of `asset` was ever claimed.
    pub fn total_claimed(&self, asset: &AssetId) -> (amount: u128)
        requires
            self.wf(),
        ensures
            amount == self@.ledger(asset@).total_claimed,
    {
        match find_ledger(&self.ledgers, asset) {
            Some(li) => {
                proof {
                    assert(self@.ledgers[li as int] == self.ledgers[li as int]@);
                    lemma_found_at(self@.ledgers, li as int);
                }
                self.ledgers[li].total_claimed
            },
            None => 0,
        }
    }

    /// What `addr` could claim of `asset` now.
    pub fn claimable(&self, addr: &String, asset: &AssetId) -> (amount: u128)
        requires
            self.wf(),
        ensures
            amount == self@.claimable(addr@, asset@),
    {
        let li = match find_ledger(&self.ledgers, asset) {
            Some(li) => li,
            None => {
                proof {
                    let m = self@.member(addr@);
                    let l = crate::model::LedgerView::blank(asset@);
                    if crate::keyed::contains_key(self@.members, addr@) {
                        let i = crate::keyed::index_of_key(self@.members, addr@);
                        assert(self@.members[i].wf_in(self@.ledgers));
                        crate::wellformed::lemma_record_not_ahead(m, self@.ledgers, asset@);
                        assert(m.effective_weight * 0 == 0) by (nonlinear_arith);
                    } else {
                        lemma_blank_claims_nothing(addr@, l);
                    }
                }
                return 0;
            },
        };
        proof {
            assert(self@.ledgers[li as int] == self.ledgers[li as int]@);
            lemma_found_at(self@.ledgers, li as int);
        }
        match self.lookup(addr) {
            Some(mi) => {
                proof {
                    assert(self@.members[mi as int] == self.members[mi as int]@);
                    lemma_found_at(self@.members, mi as int);
                }
                self.claimable_at(mi, li)
            },
            None => {
                proof {
                    lemma_blank_claims_nothing(addr@, self@.ledgers[li as int]);
                }
                0
            },
        }
    }
}

} // verus!
