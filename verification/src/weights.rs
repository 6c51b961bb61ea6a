//! Weight changes: a member is settled on every asset under its old weight
//! before the new weight is written and the total follows.

use vstd::prelude::*;
use crate::api::{UpdateMinimumEligibleWeightMsg, UpdateUserWeightsMsg, UserWeightView};
use crate::error::DistributorError;
use crate::keyed::{contains_key, lemma_found_at, lemma_put, Keyed};
use crate::model::DistributorView;
use crate::preservation::{lemma_enrolled, lemma_set_weight_wf, lemma_update_weights_wf};
use crate::state::{views, Distributor};

verus! {

/// The address and the weight of each edit.
pub open spec fn pairs(edits: Seq<UserWeightView>) -> Seq<(Seq<char>, nat)> {
    Seq::new(edits.len(), |i: int| (edits[i].user.text, edits[i].weight))
}

/// Some edit names an address that the host rejected.
pub open spec fn has_invalid_member(edits: Seq<UserWeightView>) -> bool {
    exists|i: int| 0 <= i < edits.len() && !(#[trigger] edits[i]).user.valid
}

/// Two edits name the same member.
pub open spec fn has_duplicate_member(edits: Seq<UserWeightView>) -> bool {
    exists|i: int, j: int|
        0 <= i < j < edits.len() && (#[trigger] edits[i]).user.text == (
        #[trigger] edits[j]).user.text
}

impl DistributorView {
    /// After some number of the edits, the total eligible weight is beyond
    /// 128 bits.
    pub open spec fn total_overflows(self, edits: Seq<UserWeightView>) -> bool {
        exists|k: int|
            0 <= k <= edits.len() && (#[trigger] self.update_weights(
                pairs(edits).take(k),
            )).total_eligible_weight > u128::MAX
    }

    /// Why a batch of weight changes is refused, if it is.
    pub open spec fn update_weights_error(self, edits: Seq<UserWeightView>) -> Option<
        DistributorError,
    > {
        if has_invalid_member(edits) {
            Some(DistributorError::InvalidMember)
        } else if has_duplicate_member(edits) {
            Some(DistributorError::DuplicateMemberInBatch)
        } else if self.total_overflows(edits) {
            Some(DistributorError::Overflow)
        } else {
            None
        }
    }
}

/// Weight changes leave the minimum as it is.
pub proof fn lemma_update_weights_keeps_minimum(s: DistributorView, edits: Seq<(Seq<char>, nat)>)
    ensures
        s.update_weights(edits).minimum_eligible_weight == s.minimum_eligible_weight,
    decreases edits.len(),
{
    if edits.len() > 0 {
        lemma_update_weights_keeps_minimum(s, edits.drop_last());
    }
}

/// Weight changes leave a member that none of them names as it is.
pub proof fn lemma_update_weights_keeps_others(
    s: DistributorView,
    edits: Seq<(Seq<char>, nat)>,
    addr: Seq<char>,
)
    requires
        s.wf(),
        forall|i: int| 0 <= i < edits.len() ==> (#[trigger] edits[i]).0 != addr,
    ensures
        s.update_weights(edits).member(addr) == s.member(addr),
    decreases edits.len(),
{
    if edits.len() > 0 {
        let rest = edits.drop_last();
        assert forall|i: int| 0 <= i < rest.len() implies (#[trigger] rest[i]).0 != addr by {
            assert(rest[i] == edits[i]);
        }
        lemma_update_weights_keeps_others(s, rest, addr);
        lemma_update_weights_wf(s, rest);
        let prev = s.update_weights(rest);
        let last = edits.last();
        assert(last == edits[edits.len() - 1]);
        let after = prev.member(last.0).settle_all(prev.ledgers).reweighted(
            last.1,
            prev.minimum_eligible_weight,
        );
        crate::preservation::lemma_settle_all_keeps_weight(prev.member(last.0), prev.ledgers);
        assert(prev.member(last.0).addr == last.0) by {
            if contains_key(prev.members, last.0) {
                crate::keyed::lemma_index_of_key(prev.members, last.0);
            }
        }
        assert(after.key() == last.0);
        lemma_put(prev.members, after);
    }
}

impl Distributor {
    /// Sets the weight of `addr`, whom it enrols if need be: settles the member
    /// on every ledger under its old weight, then writes the new one.
    pub(crate) fn set_weight(&mut self, addr: &String, weight: u128)
        requires
            old(self).wf(),
            old(self)@.set_weight(addr@, weight as nat).total_eligible_weight <= u128::MAX,
        ensures
            final(self)@ == old(self)@.set_weight(addr@, weight as nat),
            final(self).wf(),
    {
        let ghost s = self@;
        let ghost e = s.enrolled(addr@);
        let ghost m0 = s.member(addr@);
        proof {
            lemma_enrolled(s, addr@);
            lemma_set_weight_wf(s, addr@, weight as nat);
        }
        let mi = self.enrol(addr);
        assert(self@ == e);
        assert(mi == s.place(addr@));
        let n = self.ledgers.len();
        let mut li: usize = 0;
        proof {
            assert(e.ledgers.take(0) =~= Seq::empty());
            assert(e.with_member(mi as int, m0).members =~= e.members);
        }
        while li < n
            invariant
                li <= n,
                n == self.ledgers.len(),
                self.wf(),
                e.wf(),
                0 <= mi < e.members.len(),
                e.members[mi as int] == m0,
                self@ == e.with_member(mi as int, m0.settle_all(e.ledgers.take(li as int))),
            decreases n - li,
        {
            let ghost prev = self@;
            self.settle_at(mi, li);
            proof {
                let x = m0.settle_all(e.ledgers.take(li as int));
                assert(prev.members[mi as int] == x);
                assert(prev.ledgers == e.ledgers);
                assert(e.ledgers.take(li + 1).drop_last() =~= e.ledgers.take(li as int));
                assert(e.ledgers.take(li + 1).last() == e.ledgers[li as int]);
                let y = m0.settle_all(e.ledgers.take(li + 1));
                assert(y == x.settle(e.ledgers[li as int]));
                assert(prev.with_member(mi as int, y).members =~= e.with_member(
                    mi as int,
                    y,
                ).members);
            }
            li += 1;
        }
        proof {
            assert(e.ledgers.take(n as int) =~= e.ledgers);
            crate::preservation::lemma_settle_all_keeps_weight(m0, s.ledgers);
        }
        let ghost settled = self@;
        let before = self.members[mi].effective_weight;
        let after = if weight >= self.minimum_eligible_weight {
            weight
        } else {
            0
        };
        assert(settled.members[mi as int] == self.members[mi as int]@);
        self.total_eligible_weight = self.total_eligible_weight - before + after;
        self.members[mi].weight = weight;
        self.members[mi].effective_weight = after;
        proof {
            let target = m0.settle_all(s.ledgers).reweighted(
                weight as nat,
                s.minimum_eligible_weight,
            );
            assert(self.members[mi as int]@ == target);
            assert forall|k: int| 0 <= k < self@.members.len() && k != mi implies self@.members[k]
                == e.members[k] by {
                assert(self@.members[k] == self.members[k]@);
                assert(settled.members[k] == e.members[k]);
            }
            assert(self@.members =~= e.members.update(mi as int, target));
            assert(self@.ledgers =~= s.ledgers);
        }
    }

    /// Applies a batch of weight changes in the order given. Each member named
    /// is first settled on every asset under the weight it had; its weight
    /// then counts towards the total if it is at least the minimum. A batch
    /// that is refused changes nothing.
    pub fn update_user_weights(&mut self, msg: &UpdateUserWeightsMsg) -> (r: Result<
        (),
        DistributorError,
    >)
        requires
            old(self).wf(),
        ensures
            final(self).wf(),
            match old(self)@.update_weights_error(msg@) {
                Some(e) => r == Err::<(), DistributorError>(e) && final(self)@ == old(self)@,
                None => r is Ok && final(self)@ == old(self)@.update_weights(pairs(msg@)),
            },
    {
        let edits = &msg.new_user_weights;
        let n = edits.len();
        let ghost s = self@;
        let ghost p = pairs(msg@);
        proof {
            assert forall|k: int| 0 <= k < n implies (#[trigger] msg@[k]) == edits[k]@ by {}
        }
        // every address was accepted by the host
        let mut i: usize = 0;
        while i < n
            invariant
                i <= n,
                n == edits.len(),
                msg@ == views(edits@),
                self.wf(),
                self@ == s,
                forall|k: int| 0 <= k < i ==> (#[trigger] msg@[k]).user.valid,
            decreases n - i,
        {
            if !edits[i].user.valid {
                proof {
                    assert(!msg@[i as int].user.valid);
                }
                return Err(DistributorError::InvalidMember);
            }
            i += 1;
        }
        assert(!has_invalid_member(msg@));
        // no member is named twice
        let mut j: usize = 0;
        while j < n
            invariant
                j <= n,
                n == edits.len(),
                msg@ == views(edits@),
                self.wf(),
                self@ == s,
                !has_invalid_member(msg@),
                forall|a: int, b: int|
                    0 <= a < b < j ==> (#[trigger] msg@[a]).user.text != (
                    #[trigger] msg@[b]).user.text,
            decreases n - j,
        {
            let mut a: usize = 0;
            while a < j
                invariant
                    a <= j < n,
                    n == edits.len(),
                    msg@ == views(edits@),
                    self.wf(),
                    self@ == s,
                    !has_invalid_member(msg@),
                    forall|x: int|
                        0 <= x < a ==> (#[trigger] msg@[x]).user.text != msg@[j as int].user.text,
                decreases j - a,
            {
                if edits[a].user.text == edits[j].user.text {
                    proof {
                        assert(msg@[a as int].user.text == msg@[j as int].user.text);
                    }
                    return Err(DistributorError::DuplicateMemberInBatch);
                }
                a += 1;
            }
            j += 1;
        }
        assert(!has_duplicate_member(msg@));
        // the total stays in range after every edit
        let mut running = self.total_eligible_weight;
        let mut k: usize = 0;
        proof {
            assert(p.take(0) =~= Seq::empty());
        }
        while k < n
            invariant
                k <= n,
                n == edits.len(),
                msg@ == views(edits@),
                p == pairs(msg@),
                s == self@,
                s.wf(),
                self.wf(),
                !has_invalid_member(msg@),
                !has_duplicate_member(msg@),
                running == s.update_weights(p.take(k as int)).total_eligible_weight,
                forall|x: int|
                    0 <= x <= k ==> (#[trigger] s.update_weights(
                        p.take(x),
                    )).total_eligible_weight <= u128::MAX,
            decreases n - k,
        {
            let edit = &edits[k];
            let before = match self.lookup(&edit.user.text) {
                Some(mi) => {
                    proof {
                        assert(s.members[mi as int] == self.members[mi as int]@);
                        lemma_found_at(s.members, mi as int);
                    }
                    self.members[mi].effective_weight
                },
                None => 0,
            };
            let after = if edit.weight >= self.minimum_eligible_weight {
                edit.weight
            } else {
                0
            };
            proof {
                let rest = p.take(k as int);
                let prev = s.update_weights(rest);
                assert(p.take(k + 1).drop_last() =~= rest);
                assert(p.take(k + 1).last() == p[k as int]);
                assert(p[k as int] == (edit.user.text@, edit.weight as nat));
                assert forall|x: int| 0 <= x < rest.len() implies (#[trigger] rest[x]).0
                    != edit.user.text@ by {
                    assert(msg@[x].user.text != msg@[k as int].user.text);
                }
                lemma_update_weights_keeps_others(s, rest, edit.user.text@);
                lemma_update_weights_keeps_minimum(s, rest);
                lemma_update_weights_wf(s, rest);
                lemma_set_weight_wf(prev, edit.user.text@, edit.weight as nat);
                crate::preservation::lemma_settle_all_keeps_weight(
                    prev.member(edit.user.text@),
                    prev.ledgers,
                );
            }
            running = match (running - before).checked_add(after) {
                Some(t) => t,
                None => {
                    proof {
                        assert(s.update_weights(p.take(k + 1)).total_eligible_weight > u128::MAX);
                        assert(p.take(k + 1) == pairs(msg@).take(k + 1));
                    }
                    return Err(DistributorError::Overflow);
                },
            };
            k += 1;
        }
        assert(!s.total_overflows(msg@));
        // nothing can fail from here on
        let mut q: usize = 0;
        while q < n
            invariant
                q <= n,
                n == edits.len(),
                msg@ == views(edits@),
                p == pairs(msg@),
                self.wf(),
                !has_invalid_member(msg@),
                !has_duplicate_member(msg@),
                !s.total_overflows(msg@),
                self@ == s.update_weights(p.take(q as int)),
                forall|x: int|
                    0 <= x <= n ==> (#[trigger] s.update_weights(
                        p.take(x),
                    )).total_eligible_weight <= u128::MAX,
            decreases n - q,
        {
            proof {
                assert(p.take(q + 1).drop_last() =~= p.take(q as int));
                assert(p.take(q + 1).last() == p[q as int]);
                assert(p[q as int] == (edits[q as int].user.text@, edits[q as int].weight as nat));
                assert(s.update_weights(p.take(q + 1)) == self@.set_weight(
                    edits[q as int].user.text@,
                    edits[q as int].weight as nat,
                ));
                assert(s.update_weights(p.take(q + 1)).total_eligible_weight <= u128::MAX);
            }
            self.set_weight(&edits[q].user.text, edits[q].weight);
            q += 1;
        }
        proof {
            assert(p.take(n as int) =~= p);
        }
        Ok(())
    }

    /// Sets the floor under which a weight counts for nothing. No member is
    /// reconsidered: the new floor is applied to each weight when it is next
    /// set.
    pub fn update_minimum_eligible_weight(&mut self, msg: UpdateMinimumEligibleWeightMsg)
        requires
            old(self).wf(),
        ensures
            final(self).wf(),
            final(self)@ == old(self)@.with_minimum(msg.minimum_eligible_weight as nat),
    {
        self.minimum_eligible_weight = msg.minimum_eligible_weight;
        proof {
            assert(self@.members =~= old(self)@.members);
            assert(self@.ledgers =~= old(self)@.ledgers);
        }
    }
}

impl DistributorView {
    /// The ledger with another minimum.
    pub open spec fn with_minimum(self, minimum_eligible_weight: nat) -> DistributorView {
        DistributorView { minimum_eligible_weight, ..self }
    }
}

} // verus!
