//! The ledger as it is held in memory: lists of members, of their records and
//! of the assets' ledgers, and an index that finds a member by its address.

use vstd::prelude::*;
use vstd::hash_map::StringHashMap;
use crate::asset::AssetId;
use crate::decimal::Decimal;
use crate::keyed::{contains_key, lemma_found_at, Keyed};
use crate::model::{DistributorView, LedgerView, MemberView, RecordView};
use crate::preservation::lemma_enrolled;
use crate::wellformed::lemma_empty_wf;

verus! {

/// Where one member stands on one asset.
#[derive(Clone, Debug, PartialEq, Eq)]
pub struct Record {
    pub asset: AssetId,
    pub user_index: Decimal,
    pub pending_rewards: u128,
}

/// One member with its records.
#[derive(Clone, Debug, PartialEq, Eq)]
pub struct Member {
    pub addr: String,
    pub weight: u128,
    pub effective_weight: u128,
    pub records: Vec<Record>,
}

/// What is known of one asset.
#[derive(Clone, Debug, PartialEq, Eq)]
pub struct Ledger {
    pub asset: AssetId,
    pub global_index: Decimal,
    pub total_distributed: u128,
    pub total_claimed: u128,
}

/// The reward ledger: who weighs how much, how far each asset's index has
/// come, and where each member stands on each asset.
pub struct Distributor {
    pub(crate) minimum_eligible_weight: u128,
    pub(crate) total_eligible_weight: u128,
    pub(crate) members: Vec<Member>,
    pub(crate) ledgers: Vec<Ledger>,
    /// The place of each member on the list, by address: a member is found
    /// without going through the list.
    pub(crate) index: StringHashMap<usize>,
}

/// The views of the entries of `s`, in order.
pub open spec fn views<T: View>(s: Seq<T>) -> Seq<T::V> {
    Seq::new(s.len(), |i: int| s[i]@)
}

impl View for Record {
    type V = RecordView;

    open spec fn view(&self) -> RecordView {
        RecordView {
            asset: self.asset@,
            user_index: self.user_index@,
            pending_rewards: self.pending_rewards as nat,
        }
    }
}

impl View for Member {
    type V = MemberView;

    open spec fn view(&self) -> MemberView {
        MemberView {
            addr: self.addr@,
            weight: self.weight as nat,
            effective_weight: self.effective_weight as nat,
            records: views(self.records@),
        }
    }
}

impl View for Ledger {
    type V = LedgerView;

    open spec fn view(&self) -> LedgerView {
        LedgerView {
            asset: self.asset@,
            global_index: self.global_index@,
            total_distributed: self.total_distributed as nat,
            total_claimed: self.total_claimed as nat,
        }
    }
}

impl Distributor {
    /// The ledger as a mathematical value.
    pub open(crate) spec fn view(&self) -> DistributorView {
        DistributorView {
            minimum_eligible_weight: self.minimum_eligible_weight as nat,
            total_eligible_weight: self.total_eligible_weight as nat,
            members: views(self.members@),
            ledgers: views(self.ledgers@),
        }
    }

    /// Whether the index holds the place of each member, and nothing else.
    pub open(crate) spec fn indexed(&self) -> bool {
        &&& forall|i: int|
            0 <= i < self.members.len() ==> self.index@.contains_key(
                (#[trigger] self.members[i]).addr@,
            ) && self.index@[self.members[i].addr@] == i
        &&& forall|k: Seq<char>| #[trigger]
            self.index@.contains_key(k) ==> self.index@[k] < self.members.len()
                && self.members[self.index@[k] as int].addr@ == k
    }

    /// The invariant that every operation keeps: that of the ledger as a
    /// mathematical value, and an index that agrees with the list of members.
    pub open(crate) spec fn wf(&self) -> bool {
        self@.wf() && self.indexed()
    }

    /// What every well-formed ledger holds as a mathematical value.
    pub proof fn lemma_view_wf(&self)
        requires
            self.wf(),
        ensures
            self@.wf(),
    {
    }

    /// The members, in the order in which they were first heard of.
    pub fn members(&self) -> (members: &Vec<Member>)
        ensures
            views(members@) == self@.members,
    {
        &self.members
    }

    /// What is known of each asset, in the order in which the assets were
    /// first distributed.
    pub fn ledgers(&self) -> (ledgers: &Vec<Ledger>)
        ensures
            views(ledgers@) == self@.ledgers,
    {
        &self.ledgers
    }

    /// The place of the member with address `addr`, if there is one.
    pub(crate) fn lookup(&self, addr: &String) -> (r: Option<usize>)
        requires
            self.indexed(),
        ensures
            match r {
                Some(i) => i < self.members.len() && self.members[i as int].addr@ == addr@,
                None => !contains_key(views(self.members@), addr@),
            },
    {
        match self.index.get(addr.as_str()) {
            Some(i) => Some(*i),
            None => {
                proof {
                    let v = views(self.members@);
                    assert forall|k: int| 0 <= k < v.len() implies (#[trigger] v[k]).addr
                        != addr@ by {
                        assert(v[k] == self.members[k]@);
                        assert(self.index@.contains_key(self.members[k].addr@));
                    }
                }
                None
            },
        }
    }

    /// A ledger with no members and no assets.
    pub fn new(minimum_eligible_weight: u128) -> (d: Distributor)
        ensures
            d@ == DistributorView::empty(minimum_eligible_weight as nat),
            d.wf(),
    {
        let d = Distributor {
            minimum_eligible_weight,
            total_eligible_weight: 0,
            members: Vec::new(),
            ledgers: Vec::new(),
            index: StringHashMap::new(),
        };
        proof {
            lemma_empty_wf(minimum_eligible_weight as nat);
            assert(d@.members =~= Seq::empty());
            assert(d@.ledgers =~= Seq::empty());
        }
        d
    }

    /// The place of the member `addr` on the list, to which it is added with
    /// no weight and no records if it is not there.
    pub(crate) fn enrol(&mut self, addr: &String) -> (mi: usize)
        requires
            old(self).wf(),
        ensures
            final(self).wf(),
            final(self)@ == old(self)@.enrolled(addr@),
            mi == old(self)@.place(addr@),
            mi < final(self).members.len(),
            final(self)@.members[mi as int] == old(self)@.member(addr@),
            final(self).ledgers == old(self).ledgers,
    {
        let ghost s = self@;
        proof {
            lemma_enrolled(s, addr@);
        }
        match self.lookup(addr) {
            Some(i) => {
                proof {
                    assert(s.members[i as int] == self.members[i as int]@);
                    lemma_found_at(s.members, i as int);
                }
                i
            },
            None => {
                let place = self.members.len();
                let ghost before = *self;
                self.members.push(
                    Member {
                        addr: addr.clone(),
                        weight: 0,
                        effective_weight: 0,
                        records: Vec::new(),
                    },
                );
                self.index.insert(addr.clone(), place);
                proof {
                    let pushed = self.members[place as int];
                    assert(pushed@.records =~= Seq::empty());
                    assert(pushed@ == MemberView::blank(addr@));
                    assert(self@.members =~= s.members.push(MemberView::blank(addr@)));
                    assert(self@.ledgers =~= s.ledgers);
                    assert forall|i: int| 0 <= i < before.members.len() implies before.members[i].addr@
                        != addr@ by {
                        assert(s.members[i] == before.members[i]@);
                        assert(s.members[i].key() == before.members[i].addr@);
                    }
                    assert forall|i: int| 0 <= i < self.members.len() implies self.index@.contains_key(
                        (#[trigger] self.members[i]).addr@,
                    ) && self.index@[self.members[i].addr@] == i by {
                        if i < place {
                            assert(self.members[i] == before.members[i]);
                            assert(before.index@.contains_key(before.members[i].addr@));
                        }
                    }
                    assert forall|k: Seq<char>| #[trigger]
                        self.index@.contains_key(k) implies self.index@[k] < self.members.len()
                        && self.members[self.index@[k] as int].addr@ == k by {
                        if k != addr@ {
                            assert(before.index@.contains_key(k));
                            assert(self.members[before.index@[k] as int]
                                == before.members[before.index@[k] as int]);
                        }
                    }
                }
                place
            },
        }
    }
}

/// The place of the record on `asset`, if there is one.
pub fn find_record(records: &Vec<Record>, asset: &AssetId) -> (r: Option<usize>)
    ensures
        match r {
            Some(i) => i < records.len() && records[i as int].asset@ == asset@,
            None => !contains_key(views(records@), asset@),
        },
{
    let mut i: usize = 0;
    while i < records.len()
        invariant
            i <= records.len(),
            forall|k: int| 0 <= k < i ==> records[k].asset@ != asset@,
        decreases records.len() - i,
    {
        if records[i].asset.same_as(asset) {
            return Some(i);
        }
        i += 1;
    }
    proof {
        let v = views(records@);
        assert forall|k: int| 0 <= k < v.len() implies (#[trigger] v[k]).asset != asset@ by {
            assert(v[k] == records[k]@);
        }
    }
    None
}

/// The place of the ledger of `asset`, if there is one.
pub fn find_ledger(ledgers: &Vec<Ledger>, asset: &AssetId) -> (r: Option<usize>)
    ensures
        match r {
            Some(i) => i < ledgers.len() && ledgers[i as int].asset@ == asset@,
            None => !contains_key(views(ledgers@), asset@),
        },
{
    let mut i: usize = 0;
    while i < ledgers.len()
        invariant
            i <= ledgers.len(),
            forall|k: int| 0 <= k < i ==> ledgers[k].asset@ != asset@,
        decreases ledgers.len() - i,
    {
        if ledgers[i].asset.same_as(asset) {
            return Some(i);
        }
        i += 1;
    }
    proof {
        let v = views(ledgers@);
        assert forall|k: int| 0 <= k < v.len() implies (#[trigger] v[k]).asset != asset@ by {
            assert(v[k] == ledgers[k]@);
        }
    }
    None
}

} // verus!
