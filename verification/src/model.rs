//! The ledger as a mathematical object: what it holds, what each member is
//! owed, and what each operation makes of it.

use vstd::prelude::*;
use crate::decimal::{mul_div, DECIMAL_FRACTIONAL};
use crate::keyed::{get_or, put, Keyed};
use crate::sums::sum_by;

verus! {

/// Which asset: a native denomination or a token contract.
pub enum AssetIdView {
    Native(Seq<char>),
    Cw20(Seq<char>),
}

/// Where one member stands on one asset.
pub struct RecordView {
    pub asset: AssetIdView,
    /// The global index at which the member was last settled, in atomic units.
    pub user_index: nat,
    /// Settled and not yet claimed.
    pub pending_rewards: nat,
}

/// One member with its records, one per asset at most.
pub struct MemberView {
    pub addr: Seq<char>,
    pub weight: nat,
    /// The weight that counts towards distributions: `weight`, or 0 while the
    /// member is below the minimum.
    pub effective_weight: nat,
    pub records: Seq<RecordView>,
}

/// What is known of one asset.
pub struct LedgerView {
    pub asset: AssetIdView,
    /// Rewards per unit of weight ever distributed, in atomic units.
    pub global_index: nat,
    pub total_distributed: nat,
    pub total_claimed: nat,
}

/// An instruction to pay `amount` of `asset` to `recipient`.
pub struct TransferView {
    pub recipient: Seq<char>,
    pub asset: AssetIdView,
    pub amount: nat,
}

/// The whole ledger.
pub struct DistributorView {
    pub minimum_eligible_weight: nat,
    pub total_eligible_weight: nat,
    pub members: Seq<MemberView>,
    pub ledgers: Seq<LedgerView>,
}

impl Keyed for RecordView {
    type Key = AssetIdView;

    open spec fn key(&self) -> AssetIdView {
        self.asset
    }
}

impl Keyed for MemberView {
    type Key = Seq<char>;

    open spec fn key(&self) -> Seq<char> {
        self.addr
    }
}

impl Keyed for LedgerView {
    type Key = AssetIdView;

    open spec fn key(&self) -> AssetIdView {
        self.asset
    }
}

/// What a weight counts for: itself from the minimum upwards, nothing below.
pub open spec fn eligible_contribution(weight: nat, minimum: nat) -> nat {
    if weight >= minimum {
        weight
    } else {
        0
    }
}

impl RecordView {
    /// The record of a member that was never settled on `asset`.
    pub open spec fn blank(asset: AssetIdView) -> RecordView {
        RecordView { asset, user_index: 0, pending_rewards: 0 }
    }
}

impl LedgerView {
    /// The ledger of an asset that was never distributed.
    pub open spec fn blank(asset: AssetIdView) -> LedgerView {
        LedgerView { asset, global_index: 0, total_distributed: 0, total_claimed: 0 }
    }
}

impl MemberView {
    /// A member that was never heard of.
    pub open spec fn blank(addr: Seq<char>) -> MemberView {
        MemberView { addr, weight: 0, effective_weight: 0, records: Seq::empty() }
    }

    pub open spec fn record(self, asset: AssetIdView) -> RecordView {
        get_or(self.records, asset, RecordView::blank(asset))
    }

    /// How far the global index of `l` has moved since the member was settled.
    pub open spec fn index_gap(self, l: LedgerView) -> nat {
        let synced = self.record(l.asset).user_index;
        if l.global_index >= synced {
            (l.global_index - synced) as nat
        } else {
            0
        }
    }

    /// The whole units earned since the member was last settled on `l`.
    pub open spec fn accrued(self, l: LedgerView) -> nat {
        mul_div(self.effective_weight, self.index_gap(l), DECIMAL_FRACTIONAL as nat)
    }

    /// What the member could claim of `l` now.
    pub open spec fn claimable(self, l: LedgerView) -> nat {
        self.record(l.asset).pending_rewards + self.accrued(l)
    }

    /// The member's record on `l` once settled.
    pub open spec fn settled_record(self, l: LedgerView) -> RecordView {
        RecordView {
            asset: l.asset,
            user_index: l.global_index,
            pending_rewards: self.claimable(l),
        }
    }

    /// The member brought up to date with `l`. Nothing is written for an asset
    /// whose index is still zero.
    pub open spec fn settle(self, l: LedgerView) -> MemberView {
        if l.global_index == 0 {
            self
        } else {
            MemberView { records: put(self.records, self.settled_record(l)), ..self }
        }
    }

    /// The member settled on each of `ledgers` in turn.
    pub open spec fn settle_all(self, ledgers: Seq<LedgerView>) -> MemberView
        decreases ledgers.len(),
    {
        if ledgers.len() == 0 {
            self
        } else {
            self.settle_all(ledgers.drop_last()).settle(ledgers.last())
        }
    }

    /// The member after its claim on `l` was paid.
    pub open spec fn paid(self, l: LedgerView) -> MemberView {
        MemberView {
            records: put(
                self.records,
                RecordView { asset: l.asset, user_index: l.global_index, pending_rewards: 0 },
            ),
            ..self
        }
    }

    /// The member with a new weight, as counted under `minimum`.
    pub open spec fn reweighted(self, weight: nat, minimum: nat) -> MemberView {
        MemberView { weight, effective_weight: eligible_contribution(weight, minimum), ..self }
    }
}

/// The effective weight, as a quantity to sum over members.
pub open spec fn effective_weight_of() -> spec_fn(MemberView) -> nat {
    |m: MemberView| m.effective_weight
}

/// What a member could claim of `l`, as a quantity to sum over members.
pub open spec fn claimable_of(l: LedgerView) -> spec_fn(MemberView) -> nat {
    |m: MemberView| m.claimable(l)
}

/// The sum of the members' effective weights.
pub open spec fn total_effective(members: Seq<MemberView>) -> nat {
    sum_by(members, effective_weight_of())
}

/// The sum of what the members could claim of `l`.
pub open spec fn total_claimable(members: Seq<MemberView>, l: LedgerView) -> nat {
    sum_by(members, claimable_of(l))
}

impl DistributorView {
    pub open spec fn ledger(self, asset: AssetIdView) -> LedgerView {
        get_or(self.ledgers, asset, LedgerView::blank(asset))
    }

    pub open spec fn member(self, addr: Seq<char>) -> MemberView {
        get_or(self.members, addr, MemberView::blank(addr))
    }

    /// What `addr` could claim of `asset` now.
    pub open spec fn claimable(self, addr: Seq<char>, asset: AssetIdView) -> nat {
        self.member(addr).claimable(self.ledger(asset))
    }

    /// By how much a distribution of `amount` raises an index.
    pub open spec fn index_increment(self, amount: nat) -> nat {
        mul_div(amount, DECIMAL_FRACTIONAL as nat, self.total_eligible_weight)
    }

    /// The ledger of `asset` after `amount` more was distributed.
    pub open spec fn credited(self, asset: AssetIdView, amount: nat) -> LedgerView {
        let l = self.ledger(asset);
        LedgerView {
            asset,
            global_index: l.global_index + self.index_increment(amount),
            total_distributed: l.total_distributed + amount,
            total_claimed: l.total_claimed,
        }
    }

    /// After `amount` of `asset` was distributed over the eligible weight.
    pub open spec fn distribute(self, asset: AssetIdView, amount: nat) -> DistributorView {
        DistributorView { ledgers: put(self.ledgers, self.credited(asset, amount)), ..self }
    }

    /// After the weight of `addr` was set: the member is settled on every
    /// ledger under its old weight, then given the new one.
    pub open spec fn set_weight(self, addr: Seq<char>, weight: nat) -> DistributorView {
        let before = self.member(addr);
        let after = before.settle_all(self.ledgers).reweighted(
            weight,
            self.minimum_eligible_weight,
        );
        DistributorView {
            total_eligible_weight: (self.total_eligible_weight - before.effective_weight
                + after.effective_weight) as nat,
            members: put(self.members, after),
            ..self
        }
    }

    /// After each of `edits` was applied in order.
    pub open spec fn update_weights(self, edits: Seq<(Seq<char>, nat)>) -> DistributorView
        decreases edits.len(),
    {
        if edits.len() == 0 {
            self
        } else {
            self.update_weights(edits.drop_last()).set_weight(edits.last().0, edits.last().1)
        }
    }

    /// What a claim of `addr` on `asset` pays out.
    pub open spec fn payout(self, addr: Seq<char>, asset: AssetIdView) -> nat {
        if self.ledger(asset).global_index == 0 {
            0
        } else {
            self.claimable(addr, asset)
        }
    }

    /// After `addr` claimed what it was owed of `asset`. Nothing is written for
    /// an asset whose index is still zero.
    pub open spec fn claim(self, addr: Seq<char>, asset: AssetIdView) -> DistributorView {
        let l = self.ledger(asset);
        if l.global_index == 0 {
            self
        } else {
            DistributorView {
                members: put(self.members, self.member(addr).paid(l)),
                ledgers: put(
                    self.ledgers,
                    LedgerView { total_claimed: l.total_claimed + self.payout(addr, asset), ..l },
                ),
                ..self
            }
        }
    }

    /// After `addr` claimed each of `assets` in turn.
    pub open spec fn claim_all(self, addr: Seq<char>, assets: Seq<AssetIdView>) -> DistributorView
        decreases assets.len(),
    {
        if assets.len() == 0 {
            self
        } else {
            self.claim_all(addr, assets.drop_last()).claim(addr, assets.last())
        }
    }

    /// The transfers that claiming each of `assets` in turn gives rise to: one
    /// for each claim that pays out more than nothing, in the order of the
    /// claims.
    pub open spec fn transfers(self, addr: Seq<char>, assets: Seq<AssetIdView>) -> Seq<TransferView>
        decreases assets.len(),
    {
        if assets.len() == 0 {
            Seq::empty()
        } else {
            let earlier = self.transfers(addr, assets.drop_last());
            let amount = self.claim_all(addr, assets.drop_last()).payout(addr, assets.last());
            if amount > 0 {
                earlier.push(TransferView { recipient: addr, asset: assets.last(), amount })
            } else {
                earlier
            }
        }
    }
}

} // verus!
