//! Each whole operation of the model keeps the ledger well formed.

use vstd::prelude::*;
use crate::decimal::DECIMAL_FRACTIONAL;
use crate::keyed::{
    contains_key, index_of_key, lemma_found_at, lemma_put, lemma_put_entries, put, Keyed,
};
use crate::model::{AssetIdView, DistributorView, LedgerView, MemberView, RecordView};
use crate::sums::{lemma_sum_bounds_share, lemma_sum_update};
use crate::wellformed::{
    lemma_claimable_le_owed, lemma_join_wf, lemma_reweigh_wf, lemma_settle_wf,
    lemma_total_owed_same_index, lemma_with_member_wf, owed_of, record_backed,
};

verus! {

impl DistributorView {
    /// The ledger with the member `addr` on its list, added blank where it was
    /// not there.
    pub open spec fn enrolled(self, addr: Seq<char>) -> DistributorView {
        if contains_key(self.members, addr) {
            self
        } else {
            self.joined(addr)
        }
    }

    /// The place of `addr` on the list of `self.enrolled(addr)`.
    pub open spec fn place(self, addr: Seq<char>) -> int {
        if contains_key(self.members, addr) {
            index_of_key(self.members, addr)
        } else {
            self.members.len() as int
        }
    }
}

/// Enrolling a member keeps the ledger well formed and puts the member, as
/// it was or blank, at its place.
pub proof fn lemma_enrolled(s: DistributorView, addr: Seq<char>)
    requires
        s.wf(),
    ensures
        s.enrolled(addr).wf(),
        0 <= s.place(addr) < s.enrolled(addr).members.len(),
        s.enrolled(addr).members[s.place(addr)] == s.member(addr),
        s.enrolled(addr).ledgers == s.ledgers,
        forall|m: MemberView|
            m.addr == addr ==> #[trigger] put(s.members, m) == s.enrolled(addr).members.update(
                s.place(addr),
                m,
            ),
{
    if !contains_key(s.members, addr) {
        lemma_join_wf(s, addr);
        assert forall|m: MemberView| m.addr == addr implies #[trigger] put(s.members, m)
            == s.enrolled(addr).members.update(s.place(addr), m) by {
            assert(m.key() == addr);
            assert(s.members.push(m) =~= s.members.push(MemberView::blank(addr)).update(
                s.members.len() as int,
                m,
            ));
        }
    } else {
        assert forall|m: MemberView| m.addr == addr implies #[trigger] put(s.members, m)
            == s.enrolled(addr).members.update(s.place(addr), m) by {
            assert(m.key() == addr);
        }
    }
}

/// Settling changes neither who a member is nor what it weighs.
pub proof fn lemma_settle_all_keeps_weight(m: MemberView, ledgers: Seq<LedgerView>)
    ensures
        m.settle_all(ledgers).addr == m.addr,
        m.settle_all(ledgers).weight == m.weight,
        m.settle_all(ledgers).effective_weight == m.effective_weight,
    decreases ledgers.len(),
{
    if ledgers.len() > 0 {
        lemma_settle_all_keeps_weight(m, ledgers.drop_last());
    }
}

/// Settling the member at `i` on the first `n` ledgers keeps the ledger well
/// formed and leaves the member in step with each of them.
pub proof fn lemma_settle_all_wf(s: DistributorView, i: int, n: int)
    requires
        s.wf(),
        0 <= i < s.members.len(),
        0 <= n <= s.ledgers.len(),
    ensures
        s.with_member(i, s.members[i].settle_all(s.ledgers.take(n))).wf(),
        forall|j: int|
            0 <= j < n ==> s.members[i].settle_all(s.ledgers.take(n)).index_gap(
                #[trigger] s.ledgers[j],
            ) == 0,
    decreases n,
{
    let m = s.members[i];
    if n == 0 {
        assert(s.ledgers.take(0) =~= Seq::empty());
        assert(s.with_member(i, m).members =~= s.members);
    } else {
        lemma_settle_all_wf(s, i, n - 1);
        let before = m.settle_all(s.ledgers.take(n - 1));
        let t = s.with_member(i, before);
        assert(s.ledgers.take(n).drop_last() =~= s.ledgers.take(n - 1));
        assert(s.ledgers.take(n).last() == s.ledgers[n - 1]);
        let after = m.settle_all(s.ledgers.take(n));
        assert(after == before.settle(s.ledgers[n - 1]));
        lemma_settle_wf(t, i, n - 1);
        assert(t.with_member(i, after).members =~= s.with_member(i, after).members);
        assert forall|j: int| 0 <= j < n implies after.index_gap(#[trigger] s.ledgers[j])
            == 0 by {
            if j < n - 1 {
                assert(before.index_gap(s.ledgers[j]) == 0);
                assert(after.record(t.ledgers[j].asset) == before.record(t.ledgers[j].asset));
            }
        }
    }
}

/// Setting a member's weight keeps the ledger well formed.
pub proof fn lemma_set_weight_wf(s: DistributorView, addr: Seq<char>, weight: nat)
    requires
        s.wf(),
    ensures
        s.set_weight(addr, weight).wf(),
        s.total_eligible_weight >= s.member(addr).effective_weight,
{
    lemma_enrolled(s, addr);
    let e = s.enrolled(addr);
    let i = s.place(addr);
    let m = s.member(addr);
    lemma_settle_all_wf(e, i, e.ledgers.len() as int);
    assert(e.ledgers.take(e.ledgers.len() as int) =~= e.ledgers);
    let settled = m.settle_all(s.ledgers);
    lemma_settle_all_keeps_weight(m, s.ledgers);
    let t = e.with_member(i, settled);
    lemma_reweigh_wf(t, i, weight);
    let after = settled.reweighted(weight, s.minimum_eligible_weight);
    assert(t.reweighed(i, weight).members =~= e.members.update(i, after));
    assert(t.reweighed(i, weight) == s.set_weight(addr, weight));
}

/// A batch of weight changes keeps the ledger well formed.
pub proof fn lemma_update_weights_wf(s: DistributorView, edits: Seq<(Seq<char>, nat)>)
    requires
        s.wf(),
    ensures
        s.update_weights(edits).wf(),
    decreases edits.len(),
{
    if edits.len() > 0 {
        lemma_update_weights_wf(s, edits.drop_last());
        lemma_set_weight_wf(s.update_weights(edits.drop_last()), edits.last().0, edits.last().1);
    }
}

/// A claim keeps the ledger well formed, and what it pays out is covered by
/// what was distributed and not yet claimed.
pub proof fn lemma_claim_wf(s: DistributorView, addr: Seq<char>, asset: AssetIdView)
    requires
        s.wf(),
    ensures
        s.claim(addr, asset).wf(),
        s.payout(addr, asset) + s.ledger(asset).total_claimed <= s.ledger(asset).total_distributed,
{
    let scale = DECIMAL_FRACTIONAL as nat;
    let l = s.ledger(asset);
    if l.global_index != 0 {
        assert(contains_key(s.ledgers, asset));
        let j = index_of_key(s.ledgers, asset);
        lemma_found_at(s.ledgers, j);
        lemma_enrolled(s, addr);
        let e = s.enrolled(addr);
        let i = s.place(addr);
        let m = s.member(addr);
        let m2 = m.paid(l);
        let amount = m.claimable(l);
        let r2 = RecordView { asset: l.asset, user_index: l.global_index, pending_rewards: 0 };
        assert(m.wf_in(e.ledgers));
        lemma_put(m.records, r2);
        lemma_put_entries(m.records, r2);
        assert forall|k: int| 0 <= k < m2.records.len() implies record_backed(
            #[trigger] m2.records[k],
            e.ledgers,
        ) by {
            if m2.records[k] != r2 {
                assert(record_backed(m.records[k], e.ledgers));
            }
        }
        assert(m2.record(asset) == r2);
        assert forall|k: int| 0 <= k < e.ledgers.len() implies m2.owed_atomics(
            #[trigger] e.ledgers[k],
        ) <= m.owed_atomics(e.ledgers[k]) by {
            if k == j {
                assert(0 * scale == 0) by (nonlinear_arith);
                assert(0 * m2.effective_weight == 0) by (nonlinear_arith);
            } else {
                if k < j {
                    assert(e.ledgers[k].asset != e.ledgers[j].asset);
                } else {
                    assert(e.ledgers[j].asset != e.ledgers[k].asset);
                }
                assert(m2.record(e.ledgers[k].asset) == m.record(e.ledgers[k].asset));
            }
        }
        lemma_with_member_wf(e, i, m2);
        let t = e.with_member(i, m2);
        // what the payer is still owed of the asset
        assert(l.covers(e.members));
        lemma_sum_update(e.members, i, m2, owed_of(l));
        lemma_sum_bounds_share(e.members, i, owed_of(l));
        lemma_claimable_le_owed(m, l);
        assert(m2.owed_atomics(l) == 0) by {
            assert(0 * scale == 0) by (nonlinear_arith);
            assert(0 * m2.effective_weight == 0) by (nonlinear_arith);
        }
        let l2 = LedgerView { total_claimed: l.total_claimed + amount, ..l };
        lemma_total_owed_same_index(t.members, l, l2);
        let c = l.total_claimed;
        assert((c + amount) * scale == c * scale + amount * scale) by (nonlinear_arith);
        assert(l2.covers(t.members));
        let d = l.total_distributed;
        assert(amount + c <= d) by (nonlinear_arith)
            requires
                amount * scale + c * scale <= d * scale,
                scale > 0,
        ;
        // the ledger list with the claim booked
        let u = s.claim(addr, asset);
        assert(u.members == t.members);
        lemma_put(s.ledgers, l2);
        lemma_put_entries(s.ledgers, l2);
        assert forall|k: int| 0 <= k < u.members.len() implies (#[trigger] u.members[k]).wf_in(
            u.ledgers,
        ) by {
            let x = t.members[k];
            assert(x.wf_in(t.ledgers));
            assert forall|q: int| 0 <= q < x.records.len() implies record_backed(
                #[trigger] x.records[q],
                u.ledgers,
            ) by {
                let r = x.records[q];
                assert(record_backed(r, t.ledgers));
                if r.asset != asset {
                    assert(crate::keyed::get_or(u.ledgers, r.asset, LedgerView::blank(r.asset))
                        == crate::keyed::get_or(
                        s.ledgers,
                        r.asset,
                        LedgerView::blank(r.asset),
                    ));
                }
            }
        }
        assert forall|k: int| 0 <= k < u.ledgers.len() implies (#[trigger] u.ledgers[k]).covers(
            u.members,
        ) by {
            if u.ledgers[k] != l2 {
                assert(t.ledgers[k].covers(t.members));
            }
        }
        assert(u.total_eligible_weight == t.total_eligible_weight);
    }
}

/// A run of claims keeps the ledger well formed.
pub proof fn lemma_claim_all_wf(s: DistributorView, addr: Seq<char>, assets: Seq<AssetIdView>)
    requires
        s.wf(),
    ensures
        s.claim_all(addr, assets).wf(),
    decreases assets.len(),
{
    if assets.len() > 0 {
        lemma_claim_all_wf(s, addr, assets.drop_last());
        lemma_claim_wf(s.claim_all(addr, assets.drop_last()), addr, assets.last());
    }
}

} // verus!
