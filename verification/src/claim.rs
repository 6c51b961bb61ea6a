//! Claims: a member is settled on each asset it names and what is pending is
//! handed out as transfer instructions. The ledger authorizes and records a
//! transfer; it does not perform it.

use vstd::prelude::*;
use crate::api::{ClaimRewardsMsg, ClaimRewardsMsgView};
use crate::asset::AssetId;
use crate::error::DistributorError;
use crate::keyed::lemma_found_at;
use crate::model::{DistributorView, RecordView, TransferView};
use crate::preservation::{lemma_claim_wf, lemma_enrolled};
use crate::state::{find_ledger, find_record, views, Distributor, Record};

verus! {

/// An instruction to pay `amount` of `asset` to `recipient`.
#[derive(Clone, Debug, PartialEq, Eq)]
pub struct Transfer {
    pub recipient: String,
    pub asset: AssetId,
    pub amount: u128,
}

impl View for Transfer {
    type V = TransferView;

    open spec fn view(&self) -> TransferView {
        TransferView { recipient: self.recipient@, asset: self.asset@, amount: self.amount as nat }
    }
}

impl DistributorView {
    /// Why a claim is refused, if it is: the host rejected the member's
    /// address, or that of a token contract.
    pub open spec fn claim_error(self, msg: ClaimRewardsMsgView) -> Option<DistributorError> {
        if !msg.user.valid {
            Some(DistributorError::InvalidMember)
        } else if exists|i: int|
            0 <= i < msg.cw20_assets.len() && !(#[trigger] msg.cw20_assets[i]).valid {
            Some(DistributorError::InvalidAssetIdentity)
        } else {
            None
        }
    }
}

impl Distributor {
    /// Pays out what `user` can claim of `asset`: the member's record is set
    /// to the asset's index with nothing pending, and the amount is booked as
    /// claimed. Gives a transfer where the amount is more than nothing. An
    /// asset whose index is zero is passed over.
    pub(crate) fn claim_asset(&mut self, user: &String, asset: AssetId) -> (r: Option<Transfer>)
        requires
            old(self).wf(),
        ensures
            final(self).wf(),
            final(self)@ == old(self)@.claim(user@, asset@),
            match r {
                Some(t) => t@.amount > 0 && t@ == TransferView {
                    recipient: user@,
                    asset: asset@,
                    amount: old(self)@.payout(user@, asset@),
                },
                None => old(self)@.payout(user@, asset@) == 0,
            },
    {
        let ghost s = self@;
        let li = match find_ledger(&self.ledgers, &asset) {
            Some(j) => j,
            None => {
                return None;
            },
        };
        proof {
            assert(s.ledgers[li as int] == self.ledgers[li as int]@);
            lemma_found_at(s.ledgers, li as int);
        }
        let index = self.ledgers[li].global_index;
        if index.is_zero() {
            return None;
        }
        let ghost l = s.ledger(asset@);
        let ghost m = s.member(user@);
        proof {
            lemma_enrolled(s, user@);
            lemma_claim_wf(s, user@, asset@);
        }
        let mi = self.enrol(user);
        let ghost e = self@;
        assert(e.ledgers[li as int] == l);
        let amount = self.claimable_at(mi, li);
        let ghost settled = RecordView {
            asset: asset@,
            user_index: l.global_index,
            pending_rewards: 0,
        };
        proof {
            assert(e.members[mi as int] == self.members[mi as int]@);
            assert(m.wf_in(e.ledgers));
        }
        match find_record(&self.members[mi].records, &asset) {
            Some(k) => {
                proof {
                    assert(m.records[k as int] == self.members[mi as int].records[k as int]@);
                    lemma_found_at(m.records, k as int);
                }
                self.members[mi].records[k].user_index = index;
                self.members[mi].records[k].pending_rewards = 0;
                proof {
                    assert(self.members[mi as int].records[k as int]@ == settled);
                    assert(self.members[mi as int]@.records =~= m.records.update(
                        k as int,
                        settled,
                    ));
                }
            },
            None => {
                self.members[mi].records.push(
                    Record { asset: asset.duplicate(), user_index: index, pending_rewards: 0 },
                );
                proof {
                    assert(self.members[mi as int]@.records =~= m.records.push(settled));
                }
            },
        }
        self.ledgers[li].total_claimed = self.ledgers[li].total_claimed + amount;
        proof {
            assert(self.members[mi as int]@ == m.paid(l));
            assert forall|k: int| 0 <= k < self@.members.len() && k != mi implies self@.members[k]
                == e.members[k] by {
                assert(self@.members[k] == self.members[k]@);
            }
            assert(self@.members =~= e.members.update(mi as int, m.paid(l)));
            let booked = crate::model::LedgerView {
                total_claimed: l.total_claimed + amount as nat,
                ..l
            };
            assert(self.ledgers[li as int]@ == booked);
            assert forall|k: int| 0 <= k < self@.ledgers.len() && k != li implies self@.ledgers[k]
                == s.ledgers[k] by {
                assert(self@.ledgers[k] == self.ledgers[k]@);
            }
            assert(self@.ledgers =~= s.ledgers.update(li as int, booked));
        }
        if amount > 0 {
            Some(Transfer { recipient: user.clone(), asset, amount })
        } else {
            None
        }
    }
}

/// Claims for `msg.user` what it is owed of each asset named, the native
/// denominations first and the token contracts after, in the order given.
/// Each asset whose index is not zero has the member's record set to that
/// index with nothing pending. Returns one transfer for each claim that pays
/// out more than nothing. A refused claim changes nothing.
pub fn claim_rewards(ctx: &mut Distributor, msg: ClaimRewardsMsg) -> (r: Result<
    Vec<Transfer>,
    DistributorError,
>)
    requires
        old(ctx).wf(),
    ensures
        final(ctx).wf(),
        match old(ctx)@.claim_error(msg@) {
            Some(e) => r == Err::<Vec<Transfer>, DistributorError>(e) && final(ctx)@ == old(ctx)@,
            None => r matches Ok(transfers) && views(transfers@) == old(ctx)@.transfers(
                msg@.user.text,
                msg@.assets(),
            ) && final(ctx)@ == old(ctx)@.claim_all(msg@.user.text, msg@.assets()),
        },
{
    let ghost s = ctx@;
    let ghost addr = msg.user.text@;
    let ghost assets = msg@.assets();
    if !msg.user.valid {
        return Err(DistributorError::InvalidMember);
    }
    let tokens = msg.cw20_assets.len();
    let mut c: usize = 0;
    while c < tokens
        invariant
            c <= tokens,
            tokens == msg.cw20_assets.len(),
            ctx.wf(),
            ctx@ == s,
            msg.user.valid,
            forall|k: int| 0 <= k < c ==> (#[trigger] msg@.cw20_assets[k]).valid,
        decreases tokens - c,
    {
        if !msg.cw20_assets[c].valid {
            proof {
                assert(!msg@.cw20_assets[c as int].valid);
            }
            return Err(DistributorError::InvalidAssetIdentity);
        }
        c += 1;
    }
    assert(s.claim_error(msg@) is None);
    let mut transfers: Vec<Transfer> = Vec::new();
    let natives = msg.native_denoms.len();
    let mut i: usize = 0;
    proof {
        assert(assets.take(0) =~= Seq::empty());
        assert(views(transfers@) =~= Seq::empty());
    }
    while i < natives
        invariant
            i <= natives,
            natives == msg.native_denoms.len(),
            tokens == msg.cw20_assets.len(),
            addr == msg.user.text@,
            assets == msg@.assets(),
            ctx.wf(),
            ctx@ == s.claim_all(addr, assets.take(i as int)),
            views(transfers@) == s.transfers(addr, assets.take(i as int)),
        decreases natives - i,
    {
        let ghost before = views(transfers@);
        let asset = AssetId::Native(msg.native_denoms[i].clone());
        proof {
            assert(assets.take(i + 1).drop_last() =~= assets.take(i as int));
            assert(assets.take(i + 1).last() == assets[i as int]);
            assert(assets[i as int] == asset@);
        }
        match ctx.claim_asset(&msg.user.text, asset) {
            Some(t) => {
                transfers.push(t);
                proof {
                    assert(views(transfers@) =~= before.push(t@));
                }
            },
            None => {},
        }
        i += 1;
    }
    let mut j: usize = 0;
    while j < tokens
        invariant
            j <= tokens,
            natives == msg.native_denoms.len(),
            tokens == msg.cw20_assets.len(),
            addr == msg.user.text@,
            assets == msg@.assets(),
            ctx.wf(),
            ctx@ == s.claim_all(addr, assets.take(natives + j)),
            views(transfers@) == s.transfers(addr, assets.take(natives + j)),
        decreases tokens - j,
    {
        let ghost before = views(transfers@);
        let asset = AssetId::Cw20(msg.cw20_assets[j].text.clone());
        proof {
            assert(assets.take(natives + j + 1).drop_last() =~= assets.take(natives + j));
            assert(assets.take(natives + j + 1).last() == assets[natives + j]);
            assert(assets[natives + j] == asset@);
        }
        match ctx.claim_asset(&msg.user.text, asset) {
            Some(t) => {
                transfers.push(t);
                proof {
                    assert(views(transfers@) =~= before.push(t@));
                }
            },
            None => {},
        }
        j += 1;
    }
    proof {
        assert(assets.take(natives + tokens) =~= assets);
    }
    Ok(transfers)
}

} // verus!
