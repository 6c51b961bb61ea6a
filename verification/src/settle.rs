//! Settlement: bringing a member's record on an asset up to the asset's
//! current index, under the weight the member has held since it was last
//! settled.

use vstd::prelude::*;
use crate::keyed::lemma_found_at;
use crate::state::{find_record, views, Distributor, Record};
use crate::wellformed::{lemma_claimable_covered, lemma_record_not_ahead, lemma_settle_wf};

verus! {

impl Distributor {
    /// What the member at `mi` could claim of the ledger at `li`: its pending
    /// rewards and what it has earned since it was last settled. It is covered
    /// by what was distributed and not yet claimed.
    pub(crate) fn claimable_at(&self, mi: usize, li: usize) -> (amount: u128)
        requires
            self.wf(),
            mi < self.members.len(),
            li < self.ledgers.len(),
        ensures
            amount == self@.members[mi as int].claimable(self@.ledgers[li as int]),
            amount + self.ledgers[li as int].total_claimed
                <= self.ledgers[li as int].total_distributed,
    {
        let ledger = &self.ledgers[li];
        let member = &self.members[mi];
        proof {
            assert(self@.members[mi as int] == member@);
            assert(self@.ledgers[li as int] == ledger@);
            assert(member@.wf_in(self@.ledgers));
            lemma_claimable_covered(self@, mi as int, li as int);
            lemma_found_at(self@.ledgers, li as int);
            lemma_record_not_ahead(member@, self@.ledgers, ledger.asset@);
        }
        match find_record(&member.records, &ledger.asset) {
            Some(k) => {
                let rec = &member.records[k];
                proof {
                    assert(views(member.records@)[k as int] == rec@);
                    lemma_found_at(member@.records, k as int);
                }
                let gap = ledger.global_index.checked_sub(rec.user_index).unwrap();
                let earned = gap.checked_mul_floor(member.effective_weight).unwrap();
                rec.pending_rewards + earned
            },
            None => ledger.global_index.checked_mul_floor(member.effective_weight).unwrap(),
        }
    }

    /// Settles the member at `mi` on the ledger at `li`. Nothing is written
    /// where the ledger's index is zero.
    pub(crate) fn settle_at(&mut self, mi: usize, li: usize)
        requires
            old(self).wf(),
            mi < old(self).members.len(),
            li < old(self).ledgers.len(),
        ensures
            final(self)@ == old(self)@.with_member(
                mi as int,
                old(self)@.members[mi as int].settle(old(self)@.ledgers[li as int]),
            ),
            final(self).wf(),
            final(self).members.len() == old(self).members.len(),
            final(self).ledgers == old(self).ledgers,
    {
        let index = self.ledgers[li].global_index;
        proof {
            lemma_settle_wf(self@, mi as int, li as int);
            assert(self@.members[mi as int] == self.members[mi as int]@);
            assert(self@.ledgers[li as int] == self.ledgers[li as int]@);
        }
        if index.is_zero() {
            proof {
                assert(self@.with_member(mi as int, self@.members[mi as int]).members
                    =~= self@.members);
            }
            return ;
        }
        let amount = self.claimable_at(mi, li);
        let found = find_record(&self.members[mi].records, &self.ledgers[li].asset);
        let ghost before = self@;
        let ghost m = before.members[mi as int];
        let ghost l = before.ledgers[li as int];
        proof {
            assert(m.wf_in(before.ledgers));
        }
        match found {
            Some(k) => {
                proof {
                    assert(m.records[k as int] == self.members[mi as int].records[k as int]@);
                    lemma_found_at(m.records, k as int);
                }
                self.members[mi].records[k].user_index = index;
                self.members[mi].records[k].pending_rewards = amount;
                proof {
                    assert(self.members[mi as int].records[k as int]@ == m.settled_record(l));
                    assert(self.members[mi as int]@.records =~= m.records.update(
                        k as int,
                        m.settled_record(l),
                    ));
                }
            },
            None => {
                let asset = self.ledgers[li].asset.duplicate();
                self.members[mi].records.push(
                    Record { asset, user_index: index, pending_rewards: amount },
                );
                proof {
                    assert(self.members[mi as int]@.records =~= m.records.push(
                        m.settled_record(l),
                    ));
                }
            },
        }
        proof {
            assert(self.members[mi as int]@ == m.settle(l));
            assert(self@.members =~= before.members.update(mi as int, m.settle(l)));
            assert(self@.ledgers =~= before.ledgers);
        }
    }
}

} // verus!
