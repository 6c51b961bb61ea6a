//! What holds of every ledger that the operations can reach, and why each
//! operation keeps it.

use vstd::prelude::*;
use crate::decimal::{lemma_mul_div_bounds, DECIMAL_FRACTIONAL};
use crate::keyed::{
    contains_key, distinct_keys, get_or, index_of_key, lemma_found_at, lemma_put,
    lemma_put_entries, Keyed,
};
use crate::model::{
    claimable_of, effective_weight_of, total_claimable, total_effective, AssetIdView,
    DistributorView, LedgerView, MemberView, RecordView,
};
use crate::sums::{
    lemma_sum_bounds_share, lemma_sum_le, lemma_sum_linear, lemma_sum_push, lemma_sum_update,
    sum_by,
};

verus! {

impl MemberView {
    /// What the member is owed of `l` in atomic units, before rounding: the
    /// pending rewards, scaled, and the index gap times the effective weight.
    pub open spec fn owed_atomics(self, l: LedgerView) -> nat {
        self.record(l.asset).pending_rewards * (DECIMAL_FRACTIONAL as nat) + self.index_gap(l)
            * self.effective_weight
    }

    /// Whether the member is settled on `l` up to its current index.
    pub open spec fn synced_with(self, l: LedgerView) -> bool {
        l.global_index == self.record(l.asset).user_index
    }

    /// The member's own invariant within a ledger list: one record per asset,
    /// each for a known asset and not ahead of its index, and an effective
    /// weight that is the weight or nothing.
    pub open spec fn wf_in(self, ledgers: Seq<LedgerView>) -> bool {
        &&& distinct_keys(self.records)
        &&& self.effective_weight == 0 || self.effective_weight == self.weight
        &&& forall|k: int|
            0 <= k < self.records.len() ==> record_backed(#[trigger] self.records[k], ledgers)
    }
}

/// The record belongs to a known asset and is not ahead of its index.
pub open spec fn record_backed(r: RecordView, ledgers: Seq<LedgerView>) -> bool {
    &&& contains_key(ledgers, r.asset)
    &&& r.user_index <= get_or(ledgers, r.asset, LedgerView::blank(r.asset)).global_index
}

/// What a member is owed of `l` in atomic units, as a quantity to sum.
pub open spec fn owed_of(l: LedgerView) -> spec_fn(MemberView) -> nat {
    |m: MemberView| m.owed_atomics(l)
}

/// The sum of what the members are owed of `l`, in atomic units.
pub open spec fn total_owed(members: Seq<MemberView>, l: LedgerView) -> nat {
    sum_by(members, owed_of(l))
}

impl LedgerView {
    /// What was distributed covers what was claimed and what `members` are
    /// still owed.
    pub open spec fn covers(self, members: Seq<MemberView>) -> bool {
        total_owed(members, self) + self.total_claimed * (DECIMAL_FRACTIONAL as nat)
            <= self.total_distributed * (DECIMAL_FRACTIONAL as nat)
    }
}

impl DistributorView {
    /// The invariant of the ledger.
    pub open spec fn wf(self) -> bool {
        &&& distinct_keys(self.members)
        &&& distinct_keys(self.ledgers)
        &&& self.total_eligible_weight == total_effective(self.members)
        &&& forall|i: int|
            0 <= i < self.members.len() ==> (#[trigger] self.members[i]).wf_in(self.ledgers)
        &&& forall|j: int|
            0 <= j < self.ledgers.len() ==> (#[trigger] self.ledgers[j]).covers(self.members)
    }

    /// The ledger with `m` in the place of the member at `i`.
    pub open spec fn with_member(self, i: int, m: MemberView) -> DistributorView {
        DistributorView { members: self.members.update(i, m), ..self }
    }

    /// The ledger with a member of no weight and no records added under `addr`.
    pub open spec fn joined(self, addr: Seq<char>) -> DistributorView {
        DistributorView { members: self.members.push(MemberView::blank(addr)), ..self }
    }

    /// The ledger with the weight of the member at `i` set, and the total
    /// following.
    pub open spec fn reweighed(self, i: int, weight: nat) -> DistributorView {
        let before = self.members[i];
        let after = before.reweighted(weight, self.minimum_eligible_weight);
        DistributorView {
            total_eligible_weight: (self.total_eligible_weight - before.effective_weight
                + after.effective_weight) as nat,
            members: self.members.update(i, after),
            ..self
        }
    }

    /// The ledger with nothing in it.
    pub open spec fn empty(minimum_eligible_weight: nat) -> DistributorView {
        DistributorView {
            minimum_eligible_weight,
            total_eligible_weight: 0,
            members: Seq::empty(),
            ledgers: Seq::empty(),
        }
    }
}

/// The empty ledger is well formed.
pub proof fn lemma_empty_wf(minimum_eligible_weight: nat)
    ensures
        DistributorView::empty(minimum_eligible_weight).wf(),
{
}

/// A member whose records are all for known assets has, on any ledger in the
/// list or on the blank ledger of an unknown asset, a record that is not ahead
/// of the index.
pub proof fn lemma_record_not_ahead(m: MemberView, ledgers: Seq<LedgerView>, asset: AssetIdView)
    requires
        m.wf_in(ledgers),
    ensures
        m.record(asset).user_index <= get_or(
            ledgers,
            asset,
            LedgerView::blank(asset),
        ).global_index,
        !contains_key(ledgers, asset) ==> m.record(asset) == RecordView::blank(asset),
{
    if contains_key(m.records, asset) {
        let k = index_of_key(m.records, asset);
        assert(record_backed(m.records[k], ledgers));
    }
}

/// What a member could claim, scaled, is no more than what it is owed in
/// atomic units.
pub proof fn lemma_claimable_le_owed(m: MemberView, l: LedgerView)
    ensures
        m.claimable(l) * (DECIMAL_FRACTIONAL as nat) <= m.owed_atomics(l),
{
    let s = DECIMAL_FRACTIONAL as nat;
    let p = m.record(l.asset).pending_rewards;
    let a = m.accrued(l);
    lemma_mul_div_bounds(m.effective_weight, m.index_gap(l), s);
    assert((p + a) * s == p * s + a * s) by (nonlinear_arith);
    assert(m.effective_weight * m.index_gap(l) == m.index_gap(l) * m.effective_weight)
        by (nonlinear_arith);
}

/// In a well-formed ledger no member can claim more of an asset than was
/// distributed of it and not yet claimed.
pub proof fn lemma_claimable_covered(s: DistributorView, i: int, j: int)
    requires
        s.wf(),
        0 <= i < s.members.len(),
        0 <= j < s.ledgers.len(),
    ensures
        s.members[i].claimable(s.ledgers[j]) + s.ledgers[j].total_claimed
            <= s.ledgers[j].total_distributed,
{
    let l = s.ledgers[j];
    let m = s.members[i];
    let scale = DECIMAL_FRACTIONAL as nat;
    assert(l.covers(s.members));
    lemma_sum_bounds_share(s.members, i, owed_of(l));
    lemma_claimable_le_owed(m, l);
    let c = m.claimable(l);
    let x = l.total_claimed;
    let d = l.total_distributed;
    assert(c * scale + x * scale <= d * scale);
    assert(c + x <= d) by (nonlinear_arith)
        requires
            c * scale + x * scale <= d * scale,
            scale > 0,
    ;
}

/// In a well-formed ledger, what all members together could claim of an asset
/// and what was claimed of it is no more than what was distributed of it.
pub proof fn lemma_total_claimable_covered(s: DistributorView, j: int)
    requires
        s.wf(),
        0 <= j < s.ledgers.len(),
    ensures
        total_claimable(s.members, s.ledgers[j]) + s.ledgers[j].total_claimed
            <= s.ledgers[j].total_distributed,
{
    let l = s.ledgers[j];
    let scale = DECIMAL_FRACTIONAL as nat;
    assert(l.covers(s.members));
    let scaled = |m: MemberView| m.claimable(l) * scale;
    let zero = |m: MemberView| 0nat;
    assert forall|i: int| 0 <= i < s.members.len() implies scaled(#[trigger] s.members[i])
        <= owed_of(l)(s.members[i]) by {
        lemma_claimable_le_owed(s.members[i], l);
    }
    lemma_sum_le(s.members, scaled, owed_of(l));
    assert forall|i: int| 0 <= i < s.members.len() implies scaled(#[trigger] s.members[i])
        == zero(s.members[i]) + scale * claimable_of(l)(s.members[i]) by {
        let c = s.members[i].claimable(l);
        assert(c * scale == scale * c) by (nonlinear_arith);
    }
    lemma_sum_linear(s.members, zero, claimable_of(l), scaled, scale);
    lemma_sum_zero(s.members, zero);
    let c = total_claimable(s.members, l);
    let x = l.total_claimed;
    let d = l.total_distributed;
    assert(scale * c + x * scale <= d * scale);
    assert(c + x <= d) by (nonlinear_arith)
        requires
            scale * c + x * scale <= d * scale,
            scale > 0,
    ;
}

/// A quantity that is zero on every entry sums to zero.
pub proof fn lemma_sum_zero(members: Seq<MemberView>, f: spec_fn(MemberView) -> nat)
    requires
        forall|i: int| 0 <= i < members.len() ==> f(#[trigger] members[i]) == 0,
    ensures
        sum_by(members, f) == 0,
    decreases members.len(),
{
    if members.len() > 0 {
        let r = members.drop_last();
        assert forall|i: int| 0 <= i < r.len() implies f(#[trigger] r[i]) == 0 by {
            assert(r[i] == members[i]);
        }
        lemma_sum_zero(r, f);
        assert(members.last() == members[members.len() - 1]);
    }
}

/// Replacing a member by one that is owed no more of any ledger, has the same
/// address and effective weight and is well formed, keeps the ledger well
/// formed.
pub proof fn lemma_with_member_wf(s: DistributorView, i: int, m: MemberView)
    requires
        s.wf(),
        0 <= i < s.members.len(),
        m.addr == s.members[i].addr,
        m.effective_weight == s.members[i].effective_weight,
        m.wf_in(s.ledgers),
        forall|j: int|
            0 <= j < s.ledgers.len() ==> m.owed_atomics(#[trigger] s.ledgers[j])
                <= s.members[i].owed_atomics(s.ledgers[j]),
    ensures
        s.with_member(i, m).wf(),
{
    let t = s.with_member(i, m);
    assert forall|a: int, b: int| 0 <= a < b < t.members.len() implies (
    #[trigger] t.members[a]).addr != (#[trigger] t.members[b]).addr by {
        assert(s.members[a].addr != s.members[b].addr);
    }
    lemma_sum_update(s.members, i, m, effective_weight_of());
    assert forall|k: int| 0 <= k < t.members.len() implies (#[trigger] t.members[k]).wf_in(
        t.ledgers,
    ) by {
        if k != i {
            assert(s.members[k].wf_in(s.ledgers));
        }
    }
    assert forall|j: int| 0 <= j < t.ledgers.len() implies (#[trigger] t.ledgers[j]).covers(
        t.members,
    ) by {
        let l = s.ledgers[j];
        assert(l.covers(s.members));
        lemma_sum_update(s.members, i, m, owed_of(l));
    }
}

/// Settling a member on a ledger keeps the ledger well formed, and leaves the
/// member in step with that ledger unless its index is zero.
pub proof fn lemma_settle_wf(s: DistributorView, i: int, j: int)
    requires
        s.wf(),
        0 <= i < s.members.len(),
        0 <= j < s.ledgers.len(),
    ensures
        s.with_member(i, s.members[i].settle(s.ledgers[j])).wf(),
        s.members[i].settle(s.ledgers[j]).index_gap(s.ledgers[j]) == 0,
        forall|k: int|
            0 <= k < s.ledgers.len() && k != j ==> s.members[i].settle(s.ledgers[j]).record(
                (#[trigger] s.ledgers[k]).asset,
            ) == s.members[i].record(s.ledgers[k].asset),
{
    let m = s.members[i];
    let l = s.ledgers[j];
    let m2 = m.settle(l);
    assert(m.wf_in(s.ledgers));
    lemma_found_at(s.ledgers, j);
    lemma_record_not_ahead(m, s.ledgers, l.asset);
    if l.global_index == 0 {
        assert(s.with_member(i, m2).members =~= s.members);
    } else {
        let r2 = m.settled_record(l);
        lemma_put(m.records, r2);
        lemma_put_entries(m.records, r2);
        assert forall|k: int| 0 <= k < m2.records.len() implies record_backed(
            #[trigger] m2.records[k],
            s.ledgers,
        ) by {
            if m2.records[k] != r2 {
                assert(record_backed(m.records[k], s.ledgers));
            }
        }
        assert(m2.record(l.asset) == r2);
        assert forall|k: int| 0 <= k < s.ledgers.len() implies m2.owed_atomics(
            #[trigger] s.ledgers[k],
        ) <= m.owed_atomics(s.ledgers[k]) by {
            if k == j {
                lemma_claimable_le_owed(m, l);
                assert(m2.index_gap(l) == 0);
                assert(0 * m2.effective_weight == 0) by (nonlinear_arith);
            } else {
                if k < j {
                    assert(s.ledgers[k].asset != s.ledgers[j].asset);
                } else {
                    assert(s.ledgers[j].asset != s.ledgers[k].asset);
                }
                assert(m2.record(s.ledgers[k].asset) == m.record(s.ledgers[k].asset));
            }
        }
        assert forall|k: int| 0 <= k < s.ledgers.len() && k != j implies m2.record(
            (#[trigger] s.ledgers[k]).asset,
        ) == m.record(s.ledgers[k].asset) by {
            if k < j {
                assert(s.ledgers[k].asset != s.ledgers[j].asset);
            } else {
                assert(s.ledgers[j].asset != s.ledgers[k].asset);
            }
        }
        lemma_with_member_wf(s, i, m2);
    }
}

/// A ledger that differs from `l` only in its totals is owed the same.
pub proof fn lemma_total_owed_same_index(members: Seq<MemberView>, l: LedgerView, l2: LedgerView)
    requires
        l2.asset == l.asset,
        l2.global_index == l.global_index,
    ensures
        total_owed(members, l2) == total_owed(members, l),
{
    let zero = |m: MemberView| 0nat;
    assert forall|i: int| 0 <= i < members.len() implies owed_of(l2)(#[trigger] members[i])
        == owed_of(l)(members[i]) + 0 * zero(members[i]) by {
        assert(members[i].index_gap(l2) == members[i].index_gap(l));
    }
    lemma_sum_linear(members, owed_of(l), zero, owed_of(l2), 0);
    assert(0 * sum_by(members, zero) == 0) by (nonlinear_arith);
}

/// Distributing over a positive eligible weight keeps the ledger well formed.
pub proof fn lemma_distribute_wf(s: DistributorView, asset: AssetIdView, amount: nat)
    requires
        s.wf(),
        s.total_eligible_weight > 0,
    ensures
        s.distribute(asset, amount).wf(),
{
    let scale = DECIMAL_FRACTIONAL as nat;
    let l = s.ledger(asset);
    let l2 = s.credited(asset, amount);
    let t = s.distribute(asset, amount);
    let inc = s.index_increment(amount);
    lemma_put(s.ledgers, l2);
    lemma_put_entries(s.ledgers, l2);
    assert forall|i: int| 0 <= i < t.members.len() implies (#[trigger] t.members[i]).wf_in(
        t.ledgers,
    ) by {
        let m = s.members[i];
        assert(m.wf_in(s.ledgers));
        assert forall|k: int| 0 <= k < m.records.len() implies record_backed(
            #[trigger] m.records[k],
            t.ledgers,
        ) by {
            let r = m.records[k];
            assert(record_backed(r, s.ledgers));
            if r.asset == asset {
                assert(get_or(t.ledgers, asset, LedgerView::blank(asset)) == l2);
            } else {
                assert(get_or(t.ledgers, r.asset, LedgerView::blank(r.asset)) == get_or(
                    s.ledgers,
                    r.asset,
                    LedgerView::blank(r.asset),
                ));
            }
        }
    }
    // what the members are owed of the credited ledger
    assert forall|i: int| 0 <= i < s.members.len() implies owed_of(l2)(#[trigger] s.members[i])
        == owed_of(l)(s.members[i]) + inc * effective_weight_of()(s.members[i]) by {
        let m = s.members[i];
        assert(m.wf_in(s.ledgers));
        lemma_record_not_ahead(m, s.ledgers, asset);
        let g = m.index_gap(l);
        let e = m.effective_weight;
        assert(m.index_gap(l2) == g + inc);
        assert((g + inc) * e == g * e + inc * e) by (nonlinear_arith);
    }
    lemma_sum_linear(s.members, owed_of(l), effective_weight_of(), owed_of(l2), inc);
    lemma_mul_div_bounds(amount, scale, s.total_eligible_weight);
    if contains_key(s.ledgers, asset) {
        assert(l.covers(s.members));
    } else {
        assert forall|i: int| 0 <= i < s.members.len() implies owed_of(l)(
            #[trigger] s.members[i],
        ) == 0 by {
            let m = s.members[i];
            assert(m.wf_in(s.ledgers));
            lemma_record_not_ahead(m, s.ledgers, asset);
            assert(0 * scale == 0) by (nonlinear_arith);
            assert(0 * m.effective_weight == 0) by (nonlinear_arith);
        }
        lemma_sum_zero(s.members, owed_of(l));
        assert(0 * scale == 0) by (nonlinear_arith);
    }
    let d = l.total_distributed;
    assert((d + amount) * scale == d * scale + amount * scale) by (nonlinear_arith);
    assert(l2.covers(s.members));
    assert forall|j: int| 0 <= j < t.ledgers.len() implies (#[trigger] t.ledgers[j]).covers(
        t.members,
    ) by {
        if t.ledgers[j] != l2 {
            assert(s.ledgers[j].covers(s.members));
        }
    }
}

/// A member that was never heard of can join with no weight and no records.
pub proof fn lemma_join_wf(s: DistributorView, addr: Seq<char>)
    requires
        s.wf(),
        !contains_key(s.members, addr),
    ensures
        s.joined(addr).wf(),
{
    let b = MemberView::blank(addr);
    let t = s.joined(addr);
    let scale = DECIMAL_FRACTIONAL as nat;
    assert forall|x: int, y: int| 0 <= x < y < t.members.len() implies (
    #[trigger] t.members[x]).addr != (#[trigger] t.members[y]).addr by {
        if y < s.members.len() {
            assert(s.members[x].addr != s.members[y].addr);
        } else {
            assert(s.members[x].key() != addr);
        }
    }
    lemma_sum_push(s.members, b, effective_weight_of());
    assert forall|i: int| 0 <= i < t.members.len() implies (#[trigger] t.members[i]).wf_in(
        t.ledgers,
    ) by {
        if i < s.members.len() {
            assert(s.members[i].wf_in(s.ledgers));
        }
    }
    assert forall|j: int| 0 <= j < t.ledgers.len() implies (#[trigger] t.ledgers[j]).covers(
        t.members,
    ) by {
        let l = s.ledgers[j];
        assert(l.covers(s.members));
        lemma_sum_push(s.members, b, owed_of(l));
        assert(b.record(l.asset) == RecordView::blank(l.asset));
        assert(0 * scale == 0) by (nonlinear_arith);
        assert(b.index_gap(l) * 0 == 0) by (nonlinear_arith);
    }
}

/// The weight of a member that is in step with every ledger can change: the
/// ledger stays well formed once the total follows.
pub proof fn lemma_reweigh_wf(s: DistributorView, i: int, weight: nat)
    requires
        s.wf(),
        0 <= i < s.members.len(),
        forall|j: int|
            0 <= j < s.ledgers.len() ==> s.members[i].index_gap(#[trigger] s.ledgers[j]) == 0,
    ensures
        s.total_eligible_weight >= s.members[i].effective_weight,
        s.reweighed(i, weight).wf(),
{
    let m = s.members[i];
    let m2 = m.reweighted(weight, s.minimum_eligible_weight);
    let t = s.reweighed(i, weight);
    lemma_sum_bounds_share(s.members, i, effective_weight_of());
    lemma_sum_update(s.members, i, m2, effective_weight_of());
    assert forall|a: int, b: int| 0 <= a < b < t.members.len() implies (
    #[trigger] t.members[a]).addr != (#[trigger] t.members[b]).addr by {
        assert(s.members[a].addr != s.members[b].addr);
    }
    assert(m.wf_in(s.ledgers));
    assert forall|k: int| 0 <= k < t.members.len() implies (#[trigger] t.members[k]).wf_in(
        t.ledgers,
    ) by {
        if k != i {
            assert(s.members[k].wf_in(s.ledgers));
        }
    }
    assert forall|j: int| 0 <= j < t.ledgers.len() implies (#[trigger] t.ledgers[j]).covers(
        t.members,
    ) by {
        let l = s.ledgers[j];
        assert(l.covers(s.members));
        lemma_sum_update(s.members, i, m2, owed_of(l));
        assert(m.index_gap(l) == 0);
        assert(m2.index_gap(l) == 0);
        assert(0 * m.effective_weight == 0) by (nonlinear_arith);
        assert(0 * m2.effective_weight == 0) by (nonlinear_arith);
    }
}

} // verus!
