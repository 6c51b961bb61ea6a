//! Distribution: an amount of one asset is spread over the eligible weight by
//! raising the asset's index. No member is touched.

use vstd::prelude::*;
use crate::asset::{AssetInfo, AssetInfoView};
use crate::decimal::Decimal;
use crate::error::DistributorError;
use crate::keyed::lemma_found_at;
use crate::model::DistributorView;
use crate::state::{find_ledger, Distributor, Ledger};
use crate::wellformed::lemma_distribute_wf;

verus! {

impl DistributorView {
    /// Why a distribution of `amount` of `asset` is refused, if it is: the
    /// asset cannot be resolved, there is no eligible weight, or the asset's
    /// index or total would leave the range of 128 bits.
    pub open spec fn distribute_error(self, asset: AssetInfoView, amount: nat) -> Option<
        DistributorError,
    > {
        match asset.resolve() {
            Err(e) => Some(e),
            Ok(id) => {
                if self.total_eligible_weight == 0 {
                    Some(DistributorError::NoEligibleRecipients)
                } else if self.credited(id, amount).global_index > u128::MAX || self.credited(
                    id,
                    amount,
                ).total_distributed > u128::MAX {
                    Some(DistributorError::Overflow)
                } else {
                    None
                }
            },
        }
    }

    /// The ledger after a distribution of `amount` of `asset` that was not
    /// refused.
    pub open spec fn distribute_info(self, asset: AssetInfoView, amount: nat) -> DistributorView {
        match asset.resolve() {
            Ok(id) => self.distribute(id, amount),
            Err(_) => self,
        }
    }
}

impl Distributor {
    /// Distributes `amount` of `asset` over the eligible weight: the asset's
    /// index rises by `amount / total eligible weight`, rounded down to 18
    /// fractional digits, and its total by `amount`. A refused distribution
    /// changes nothing.
    pub fn distribute(&mut self, asset: &AssetInfo, amount: u128) -> (r: Result<
        (),
        DistributorError,
    >)
        requires
            old(self).wf(),
        ensures
            final(self).wf(),
            match old(self)@.distribute_error(asset@, amount as nat) {
                Some(e) => r == Err::<(), DistributorError>(e) && final(self)@ == old(self)@,
                None => r is Ok && final(self)@ == old(self)@.distribute_info(
                    asset@,
                    amount as nat,
                ),
            },
    {
        let id = match asset.resolve() {
            Ok(id) => id,
            Err(e) => {
                return Err(e);
            },
        };
        if self.total_eligible_weight == 0 {
            return Err(DistributorError::NoEligibleRecipients);
        }
        let ghost before = self@;
        let ghost credited = before.credited(id@, amount as nat);
        let increment = match Decimal::checked_from_ratio(amount, self.total_eligible_weight) {
            Some(d) => d,
            None => {
                return Err(DistributorError::Overflow);
            },
        };
        match find_ledger(&self.ledgers, &id) {
            Some(j) => {
                proof {
                    assert(before.ledgers[j as int] == self.ledgers[j as int]@);
                    lemma_found_at(before.ledgers, j as int);
                }
                let index = match self.ledgers[j].global_index.checked_add(increment) {
                    Some(d) => d,
                    None => {
                        return Err(DistributorError::Overflow);
                    },
                };
                let total = match self.ledgers[j].total_distributed.checked_add(amount) {
                    Some(t) => t,
                    None => {
                        return Err(DistributorError::Overflow);
                    },
                };
                self.ledgers[j].global_index = index;
                self.ledgers[j].total_distributed = total;
                proof {
                    assert(self.ledgers[j as int]@ == credited);
                    assert(self@.ledgers =~= before.ledgers.update(j as int, credited));
                }
            },
            None => {
                self.ledgers.push(
                    Ledger {
                        asset: id,
                        global_index: increment,
                        total_distributed: amount,
                        total_claimed: 0,
                    },
                );
                proof {
                    assert(self@.ledgers =~= before.ledgers.push(credited));
                }
            },
        }
        proof {
            assert(self@.members =~= before.members);
            lemma_distribute_wf(before, id@, amount as nat);
        }
        Ok(())
    }
}

} // verus!
