//! What the ledger guarantees, stated over its mathematical model and proved.

use vstd::prelude::*;
use crate::decimal::{mul_div, DECIMAL_FRACTIONAL};
use crate::keyed::{
    contains_key, distinct_keys, get_or, index_of_key, lemma_found_at, lemma_index_of_key,
    lemma_put, lemma_put_same, Keyed,
};
use crate::model::{
    claimable_of, effective_weight_of, eligible_contribution, total_claimable, total_effective,
    AssetIdView, DistributorView, LedgerView, MemberView, RecordView, TransferView,
};
use crate::preservation::{
    lemma_claim_all_wf, lemma_enrolled, lemma_set_weight_wf, lemma_settle_all_keeps_weight,
    lemma_update_weights_wf,
};
use crate::sums::lemma_sum_bounds_share;
use crate::wellformed::{
    lemma_distribute_wf, lemma_empty_wf, lemma_record_not_ahead, lemma_sum_zero,
    lemma_total_claimable_covered,
};

verus! {

impl DistributorView {
    /// After each of `distributions` was made in order.
    pub open spec fn distribute_all(
        self,
        distributions: Seq<(AssetIdView, nat)>,
    ) -> DistributorView
        decreases distributions.len(),
    {
        if distributions.len() == 0 {
            self
        } else {
            self.distribute_all(distributions.drop_last()).distribute(
                distributions.last().0,
                distributions.last().1,
            )
        }
    }
}

/// The invariant is kept. The empty ledger is well formed, and every
/// operation that is not refused leaves a well-formed ledger well formed, so
/// what is proved of well-formed ledgers holds at every point of every run.
pub proof fn law_well_formed_is_kept(
    s: DistributorView,
    minimum: nat,
    asset: AssetIdView,
    amount: nat,
    edits: Seq<(Seq<char>, nat)>,
    addr: Seq<char>,
    assets: Seq<AssetIdView>,
)
    requires
        s.wf(),
    ensures
        DistributorView::empty(minimum).wf(),
        s.total_eligible_weight > 0 ==> s.distribute(asset, amount).wf(),
        s.update_weights(edits).wf(),
        s.with_minimum(minimum).wf(),
        s.claim_all(addr, assets).wf(),
{
    lemma_empty_wf(minimum);
    if s.total_eligible_weight > 0 {
        lemma_distribute_wf(s, asset, amount);
    }
    lemma_update_weights_wf(s, edits);
    lemma_claim_all_wf(s, addr, assets);
}

/// The total eligible weight is the sum of the members' effective weights,
/// and a member's effective weight is its weight or nothing.
pub proof fn law_total_is_sum(s: DistributorView, addr: Seq<char>)
    requires
        s.wf(),
    ensures
        s.total_eligible_weight == total_effective(s.members),
        s.member(addr).effective_weight == 0 || s.member(addr).effective_weight == s.member(
            addr,
        ).weight,
        s.member(addr).effective_weight <= s.total_eligible_weight,
{
    if contains_key(s.members, addr) {
        lemma_index_of_key(s.members, addr);
        let i = index_of_key(s.members, addr);
        assert(s.members[i].wf_in(s.ledgers));
        lemma_sum_bounds_share(s.members, i, effective_weight_of());
    }
}

/// Conservation. Of any asset, what all members together could claim and what
/// has been claimed is never more than what has been distributed: rounding
/// only ever leaves something behind.
pub proof fn law_conservation(s: DistributorView, asset: AssetIdView)
    requires
        s.wf(),
    ensures
        total_claimable(s.members, s.ledger(asset)) + s.ledger(asset).total_claimed <= s.ledger(
            asset,
        ).total_distributed,
{
    if contains_key(s.ledgers, asset) {
        lemma_index_of_key(s.ledgers, asset);
        lemma_total_claimable_covered(s, index_of_key(s.ledgers, asset));
    } else {
        let l = LedgerView::blank(asset);
        assert forall|i: int| 0 <= i < s.members.len() implies claimable_of(l)(
            #[trigger] s.members[i],
        ) == 0 by {
            let m = s.members[i];
            assert(m.wf_in(s.ledgers));
            lemma_record_not_ahead(m, s.ledgers, asset);
            assert(m.effective_weight * 0 == 0) by (nonlinear_arith);
        }
        lemma_sum_zero(s.members, claimable_of(l));
    }
}

/// Distributions touch no member.
pub proof fn lemma_distribute_all_keeps_members(
    s: DistributorView,
    distributions: Seq<(AssetIdView, nat)>,
)
    ensures
        s.distribute_all(distributions).members == s.members,
    decreases distributions.len(),
{
    if distributions.len() > 0 {
        lemma_distribute_all_keeps_members(s, distributions.drop_last());
    }
}

/// Proportionality. Two members of equal effective weight that stand alike on
/// an asset can claim the same of it after any run of distributions, as long
/// as neither claims nor has its weight set.
pub proof fn law_proportionality(
    s: DistributorView,
    a: Seq<char>,
    b: Seq<char>,
    distributions: Seq<(AssetIdView, nat)>,
    asset: AssetIdView,
)
    requires
        s.member(a).effective_weight == s.member(b).effective_weight,
        s.member(a).record(asset) == s.member(b).record(asset),
    ensures
        s.distribute_all(distributions).claimable(a, asset) == s.distribute_all(
            distributions,
        ).claimable(b, asset),
{
    lemma_distribute_all_keeps_members(s, distributions);
}

/// The record that a member has on `asset` after it was settled on every
/// ledger: the settled one where the asset has a ledger with a positive
/// index, the old one elsewhere.
pub proof fn lemma_settle_all_record(m: MemberView, ledgers: Seq<LedgerView>, asset: AssetIdView)
    requires
        distinct_keys(ledgers),
        distinct_keys(m.records),
    ensures
        distinct_keys(m.settle_all(ledgers).records),
        m.settle_all(ledgers).record(asset) == if get_or(
            ledgers,
            asset,
            LedgerView::blank(asset),
        ).global_index != 0 {
            m.settled_record(get_or(ledgers, asset, LedgerView::blank(asset)))
        } else {
            m.record(asset)
        },
    decreases ledgers.len(),
{
    if ledgers.len() > 0 {
        let rest = ledgers.drop_last();
        let last = ledgers.last();
        let n = ledgers.len() - 1;
        assert(last == ledgers[n]);
        assert forall|i: int, j: int| 0 <= i < j < rest.len() implies (#[trigger] rest[i]).key()
            != (#[trigger] rest[j]).key() by {
            assert(rest[i] == ledgers[i] && rest[j] == ledgers[j]);
        }
        lemma_settle_all_record(m, rest, asset);
        lemma_settle_all_record(m, rest, last.asset);
        lemma_settle_all_keeps_weight(m, rest);
        let before = m.settle_all(rest);
        lemma_found_at(ledgers, n);
        // the last ledger's asset has no ledger among the rest
        assert(!contains_key(rest, last.asset)) by {
            if contains_key(rest, last.asset) {
                let i = index_of_key(rest, last.asset);
                assert(rest[i] == ledgers[i]);
                assert(ledgers[i].key() != ledgers[n].key());
            }
        }
        if asset != last.asset {
            assert(contains_key(rest, asset) == contains_key(ledgers, asset)) by {
                if contains_key(rest, asset) {
                    let i = index_of_key(rest, asset);
                    assert(ledgers[i].key() == asset);
                }
                if contains_key(ledgers, asset) {
                    let i = index_of_key(ledgers, asset);
                    assert(rest[i].key() == asset);
                }
            }
            if contains_key(rest, asset) {
                let i = index_of_key(rest, asset);
                assert(rest[i] == ledgers[i]);
                lemma_found_at(rest, i);
                lemma_found_at(ledgers, i);
            }
        }
        if last.global_index != 0 {
            lemma_put(before.records, before.settled_record(last));
        }
    }
}

/// Settle before mutate. Setting a member's weight changes nothing that
/// anyone could claim: what the member earned up to then was computed under
/// the weight it had. What a later distribution adds to the member is computed
/// under the weight it was given.
pub proof fn law_settle_before_mutate(
    s: DistributorView,
    addr: Seq<char>,
    weight: nat,
    asset: AssetIdView,
    amount: nat,
)
    requires
        s.wf(),
    ensures
        s.set_weight(addr, weight).claimable(addr, asset) == s.claimable(addr, asset),
        s.set_weight(addr, weight).distribute(asset, amount).claimable(addr, asset) == s.claimable(
            addr,
            asset,
        ) + mul_div(
            eligible_contribution(weight, s.minimum_eligible_weight),
            s.set_weight(addr, weight).index_increment(amount),
            DECIMAL_FRACTIONAL as nat,
        ),
{
    let scale = DECIMAL_FRACTIONAL as nat;
    let s1 = s.set_weight(addr, weight);
    let m = s.member(addr);
    let l = s.ledger(asset);
    let settled = m.settle_all(s.ledgers);
    let m1 = settled.reweighted(weight, s.minimum_eligible_weight);
    lemma_enrolled(s, addr);
    lemma_set_weight_wf(s, addr, weight);
    assert(m.wf_in(s.ledgers));
    assert(m.addr == addr);
    lemma_settle_all_record(m, s.ledgers, asset);
    lemma_settle_all_keeps_weight(m, s.ledgers);
    lemma_record_not_ahead(m, s.ledgers, asset);
    assert(m1.key() == addr);
    lemma_put(s.members, m1);
    assert(s1.member(addr) == m1);
    assert(m1.record(asset) == settled.record(asset));
    let e = m1.effective_weight;
    assert(e * 0 == 0) by (nonlinear_arith);
    assert(m.effective_weight * 0 == 0) by (nonlinear_arith);
    assert(m1.index_gap(l) == 0);
    assert(s1.claimable(addr, asset) == s.claimable(addr, asset));
    // the distribution after
    let s2 = s1.distribute(asset, amount);
    let l2 = s1.credited(asset, amount);
    lemma_put(s1.ledgers, l2);
    assert(s2.ledger(asset) == l2);
    assert(s2.member(addr) == m1);
    assert(m1.index_gap(l2) == s1.index_increment(amount));
}

/// Setting the weight of one member leaves every other member as it was.
pub proof fn law_set_weight_keeps_others(
    s: DistributorView,
    addr: Seq<char>,
    weight: nat,
    other: Seq<char>,
)
    requires
        s.wf(),
        other != addr,
    ensures
        s.set_weight(addr, weight).member(other) == s.member(other),
        s.set_weight(addr, weight).ledgers == s.ledgers,
{
    let m1 = s.member(addr).settle_all(s.ledgers).reweighted(weight, s.minimum_eligible_weight);
    lemma_enrolled(s, addr);
    lemma_settle_all_keeps_weight(s.member(addr), s.ledgers);
    assert(m1.key() == addr);
    lemma_put(s.members, m1);
}

/// Eligibility edge. A weight exactly at the minimum counts in full, and one
/// unit below it counts for nothing.
pub proof fn law_eligibility_edge(minimum: nat)
    ensures
        eligible_contribution(minimum, minimum) == minimum,
        minimum > 0 ==> eligible_contribution((minimum - 1) as nat, minimum) == 0,
{
}

/// Eligibility edge, on the total. When a member that counted falls below the
/// minimum, the total eligible weight drops by exactly the weight it had; when
/// a member that did not count reaches the minimum, the total rises by exactly
/// its new weight.
pub proof fn law_eligibility_crossing(s: DistributorView, addr: Seq<char>, weight: nat)
    requires
        s.wf(),
    ensures
        s.set_weight(addr, weight).member(addr).weight == weight,
        s.set_weight(addr, weight).member(addr).effective_weight == eligible_contribution(
            weight,
            s.minimum_eligible_weight,
        ),
        s.total_eligible_weight >= s.member(addr).effective_weight,
        weight < s.minimum_eligible_weight ==> s.set_weight(addr, weight).total_eligible_weight
            == s.total_eligible_weight - s.member(addr).effective_weight,
        weight >= s.minimum_eligible_weight && s.member(addr).effective_weight == 0 ==> s.set_weight(
            addr,
            weight,
        ).total_eligible_weight == s.total_eligible_weight + weight,
{
    let m1 = s.member(addr).settle_all(s.ledgers).reweighted(weight, s.minimum_eligible_weight);
    lemma_enrolled(s, addr);
    lemma_set_weight_wf(s, addr, weight);
    lemma_settle_all_keeps_weight(s.member(addr), s.ledgers);
    assert(m1.key() == addr);
    lemma_put(s.members, m1);
}

/// The index of an asset never decreases under a distribution, and neither a
/// weight change nor a claim moves it.
pub proof fn law_index_monotonic(
    s: DistributorView,
    asset: AssetIdView,
    other: AssetIdView,
    amount: nat,
    addr: Seq<char>,
    weight: nat,
)
    requires
        s.wf(),
    ensures
        s.distribute(other, amount).ledger(asset).global_index >= s.ledger(asset).global_index,
        s.set_weight(addr, weight).ledger(asset).global_index == s.ledger(asset).global_index,
        s.claim(addr, other).ledger(asset).global_index == s.ledger(asset).global_index,
{
    lemma_put(s.ledgers, s.credited(other, amount));
    let l = s.ledger(other);
    if l.global_index != 0 {
        let booked = LedgerView {
            total_claimed: l.total_claimed + s.payout(addr, other),
            ..l
        };
        assert(contains_key(s.ledgers, other));
        lemma_index_of_key(s.ledgers, other);
        lemma_put(s.ledgers, booked);
    }
}

impl DistributorView {
    /// `addr` has nothing to settle on `asset`: the asset's index is zero, or
    /// the member has a record on it at that index with nothing pending.
    pub open spec fn settled_up(self, addr: Seq<char>, asset: AssetIdView) -> bool {
        let l = self.ledger(asset);
        l.global_index == 0 || (contains_key(self.members, addr) && contains_key(
            self.member(addr).records,
            asset,
        ) && self.member(addr).record(asset) == RecordView {
            asset,
            user_index: l.global_index,
            pending_rewards: 0,
        })
    }
}

/// What a claim leaves behind: the claimant is settled up on the asset, and
/// stays settled up on every asset on which it was.
pub proof fn lemma_claim_settles(
    s: DistributorView,
    addr: Seq<char>,
    asset: AssetIdView,
    other: AssetIdView,
)
    requires
        s.wf(),
    ensures
        s.claim(addr, asset).settled_up(addr, asset),
        s.settled_up(addr, other) ==> s.claim(addr, asset).settled_up(addr, other),
{
    let l = s.ledger(asset);
    if l.global_index != 0 {
        let t = s.claim(addr, asset);
        let m = s.member(addr);
        let m2 = m.paid(l);
        let r2 = RecordView { asset, user_index: l.global_index, pending_rewards: 0 };
        let booked = LedgerView {
            total_claimed: l.total_claimed + s.payout(addr, asset),
            ..l
        };
        lemma_enrolled(s, addr);
        assert(contains_key(s.ledgers, asset));
        lemma_index_of_key(s.ledgers, asset);
        assert(m.wf_in(s.ledgers));
        assert(m.addr == addr);
        assert(m2.key() == addr);
        lemma_put(s.members, m2);
        lemma_put(m.records, r2);
        lemma_put(s.ledgers, booked);
        assert(t.member(addr) == m2);
        assert(t.ledger(asset) == booked);
        if other != asset {
            assert(t.ledger(other) == s.ledger(other));
            assert(m2.record(other) == m.record(other));
            if s.settled_up(addr, other) && s.ledger(other).global_index != 0 {
                assert(contains_key(m2.records, other));
            }
        }
    }
}

/// Idempotent claim. A claim by a member that is settled up on the asset pays
/// nothing and leaves the ledger exactly as it was.
pub proof fn law_claim_when_settled_up(s: DistributorView, addr: Seq<char>, asset: AssetIdView)
    requires
        s.wf(),
        s.settled_up(addr, asset),
    ensures
        s.payout(addr, asset) == 0,
        s.claim(addr, asset) == s,
{
    let l = s.ledger(asset);
    if l.global_index != 0 {
        let m = s.member(addr);
        let r = m.record(asset);
        assert(m.effective_weight * 0 == 0) by (nonlinear_arith);
        assert(m.index_gap(l) == 0);
        assert(s.payout(addr, asset) == 0);
        lemma_put_same(m.records, r);
        assert(m.paid(l) == m);
        lemma_index_of_key(s.members, addr);
        lemma_put_same(s.members, m);
        assert(contains_key(s.ledgers, asset));
        lemma_index_of_key(s.ledgers, asset);
        lemma_put_same(s.ledgers, l);
    }
}

/// After a run of claims the claimant is settled up on each asset claimed.
pub proof fn lemma_claim_all_settles(
    s: DistributorView,
    addr: Seq<char>,
    assets: Seq<AssetIdView>,
    i: int,
)
    requires
        s.wf(),
        0 <= i < assets.len(),
    ensures
        s.claim_all(addr, assets).settled_up(addr, assets[i]),
    decreases assets.len(),
{
    let rest = assets.drop_last();
    let before = s.claim_all(addr, rest);
    lemma_claim_all_wf(s, addr, rest);
    assert(assets.last() == assets[assets.len() - 1]);
    if i < rest.len() {
        lemma_claim_all_settles(s, addr, rest, i);
        assert(rest[i] == assets[i]);
    }
    lemma_claim_settles(before, addr, assets.last(), assets[i]);
}

/// A run of claims by a member that is settled up on each asset named gives
/// no transfer and changes nothing.
pub proof fn lemma_claim_all_when_settled_up(
    s: DistributorView,
    addr: Seq<char>,
    assets: Seq<AssetIdView>,
)
    requires
        s.wf(),
        forall|i: int| 0 <= i < assets.len() ==> s.settled_up(addr, #[trigger] assets[i]),
    ensures
        s.claim_all(addr, assets) == s,
        s.transfers(addr, assets) == Seq::<TransferView>::empty(),
    decreases assets.len(),
{
    if assets.len() > 0 {
        let rest = assets.drop_last();
        assert forall|i: int| 0 <= i < rest.len() implies s.settled_up(
            addr,
            #[trigger] rest[i],
        ) by {
            assert(rest[i] == assets[i]);
        }
        lemma_claim_all_when_settled_up(s, addr, rest);
        assert(assets.last() == assets[assets.len() - 1]);
        law_claim_when_settled_up(s, addr, assets.last());
    }
}

/// Idempotent claim, twice in a row. Whatever a claim on some assets paid, the
/// same claim made again at once gives no transfer and leaves the ledger
/// exactly as the first left it.
pub proof fn law_claim_twice(s: DistributorView, addr: Seq<char>, assets: Seq<AssetIdView>)
    requires
        s.wf(),
    ensures
        s.claim_all(addr, assets).transfers(addr, assets) == Seq::<TransferView>::empty(),
        s.claim_all(addr, assets).claim_all(addr, assets) == s.claim_all(addr, assets),
{
    let t = s.claim_all(addr, assets);
    lemma_claim_all_wf(s, addr, assets);
    assert forall|i: int| 0 <= i < assets.len() implies t.settled_up(
        addr,
        #[trigger] assets[i],
    ) by {
        lemma_claim_all_settles(s, addr, assets, i);
    }
    lemma_claim_all_when_settled_up(t, addr, assets);
}

/// A claim that pays nothing takes nothing from anyone: it gives no transfer,
/// books nothing as claimed, and leaves what every member could claim of every
/// asset as it was.
pub proof fn law_claim_of_nothing(
    s: DistributorView,
    addr: Seq<char>,
    asset: AssetIdView,
    whom: Seq<char>,
    of: AssetIdView,
)
    requires
        s.wf(),
        s.claimable(addr, asset) == 0,
    ensures
        s.payout(addr, asset) == 0,
        s.transfers(addr, seq![asset]) == Seq::<TransferView>::empty(),
        s.claim(addr, asset).ledgers == s.ledgers,
        s.claim(addr, asset).total_eligible_weight == s.total_eligible_weight,
        s.claim(addr, asset).claimable(whom, of) == s.claimable(whom, of),
{
    let l = s.ledger(asset);
    assert(seq![asset].drop_last() =~= Seq::<AssetIdView>::empty());
    assert(seq![asset].last() == asset);
    assert(s.claim_all(addr, Seq::<AssetIdView>::empty()) == s);
    assert(s.transfers(addr, Seq::<AssetIdView>::empty()) == Seq::<TransferView>::empty());
    if l.global_index != 0 {
        let m = s.member(addr);
        let m2 = m.paid(l);
        let r2 = RecordView { asset, user_index: l.global_index, pending_rewards: 0 };
        lemma_enrolled(s, addr);
        assert(m.addr == addr);
        assert(m2.key() == addr);
        assert(m.wf_in(s.ledgers));
        lemma_put(s.members, m2);
        lemma_put(m.records, r2);
        assert(contains_key(s.ledgers, asset));
        lemma_index_of_key(s.ledgers, asset);
        lemma_put_same(s.ledgers, l);
        if whom == addr {
            if of == asset {
                assert(m2.effective_weight * 0 == 0) by (nonlinear_arith);
            } else {
                assert(m2.record(of) == m.record(of));
            }
        }
    }
}

/// A member's record is never ahead of the asset's index.
pub proof fn law_record_not_ahead(s: DistributorView, addr: Seq<char>, asset: AssetIdView)
    requires
        s.wf(),
    ensures
        s.member(addr).record(asset).user_index <= s.ledger(asset).global_index,
{
    if contains_key(s.members, addr) {
        lemma_index_of_key(s.members, addr);
        let i = index_of_key(s.members, addr);
        assert(s.members[i].wf_in(s.ledgers));
        lemma_record_not_ahead(s.members[i], s.ledgers, asset);
    }
}

/// Pending rewards only grow by settlement and only shrink by a claim, to
/// nothing: a weight change leaves no member with less pending on any asset,
/// and a claim on an asset whose index is not zero leaves the claimant with
/// nothing pending on it.
pub proof fn law_pending_rewards(
    s: DistributorView,
    addr: Seq<char>,
    weight: nat,
    asset: AssetIdView,
)
    requires
        s.wf(),
    ensures
        s.set_weight(addr, weight).member(addr).record(asset).pending_rewards >= s.member(
            addr,
        ).record(asset).pending_rewards,
        s.ledger(asset).global_index != 0 ==> s.claim(addr, asset).member(addr).record(
            asset,
        ).pending_rewards == 0,
{
    let m = s.member(addr);
    let m1 = m.settle_all(s.ledgers).reweighted(weight, s.minimum_eligible_weight);
    lemma_enrolled(s, addr);
    assert(m.wf_in(s.ledgers));
    assert(m.addr == addr);
    lemma_settle_all_record(m, s.ledgers, asset);
    lemma_settle_all_keeps_weight(m, s.ledgers);
    assert(m1.key() == addr);
    lemma_put(s.members, m1);
    lemma_claim_settles(s, addr, asset, asset);
}

} // verus!
