//! The checks that a proposal must pass before the governance controller
//! takes it up.

use vstd::prelude::*;
use crate::api::{UserWeight, UserWeightView};
use crate::asset::{Addr, AddrView, AssetInfo, AssetInfoView};
use crate::decimal::{Decimal, DECIMAL_FRACTIONAL};
use crate::faults::{agrees, first_fault, lemma_first_fault_stays, lemma_first_fault_step};
use crate::governance::{
    Asset, DaoCouncil, DaoCouncilSpec, DaoType, DistributeFundsMsg, Duration, ExecuteMsgsMsg,
    GovConfig, GovernanceControllerError, GovernanceErrorView, ModifyMultisigMembershipMsg,
    ModifyValue, ProposalAction, ProposalActionType, ProposalDeposit, UpdateGovConfigMsg,
    UpgradeDaoMsg,
};
use crate::state::views;

verus! {

/// A share that can be reached: more than nothing and no more than the whole.
pub open spec fn is_share(d: Decimal) -> bool {
    0 < d@ <= DECIMAL_FRACTIONAL
}

/// What is wrong with a quorum, if anything.
pub open spec fn quorum_fault(quorum: Decimal) -> Option<GovernanceErrorView> {
    if is_share(quorum) {
        None
    } else {
        Some(GovernanceErrorView::InvalidArgument { msg: "Invalid quorum, must be 0 < quorum <= 1"@ })
    }
}

/// What is wrong with a threshold, if anything.
pub open spec fn threshold_fault(threshold: Decimal) -> Option<GovernanceErrorView> {
    if is_share(threshold) {
        None
    } else {
        Some(
            GovernanceErrorView::InvalidArgument {
                msg: "Invalid threshold, must be 0 < threshold <= 1"@,
            },
        )
    }
}

/// What is wrong with a governance configuration for an organization of the
/// given type, if anything. The checks are made in this order: the vote
/// duration, the unlocking period, the quorum, the threshold, the veto
/// threshold, the minimum deposit.
pub open spec fn gov_config_fault(dao_type: DaoType, config: GovConfig) -> Option<
    GovernanceErrorView,
> {
    if config.vote_duration == 0 {
        Some(GovernanceErrorView::ZeroVoteDuration)
    } else if config.unlocking_period matches Duration::Time(unlocking)
        && unlocking < config.vote_duration {
        Some(GovernanceErrorView::VoteDurationLongerThanUnstaking)
    } else if quorum_fault(config.quorum) is Some {
        quorum_fault(config.quorum)
    } else if threshold_fault(config.threshold) is Some {
        threshold_fault(config.threshold)
    } else if config.veto_threshold matches Some(veto) && !is_share(veto) {
        Some(
            GovernanceErrorView::InvalidArgument {
                msg: "Invalid veto threshold, must be 0 < threshold <= 1"@,
            },
        )
    } else if config.minimum_deposit is Some && (dao_type == DaoType::Nft || dao_type
        == DaoType::Multisig) {
        Some(GovernanceErrorView::MinimumDepositNotAllowed)
    } else {
        None
    }
}

/// Checks a governance configuration for an organization of the given type.
pub fn validate_dao_gov_config(dao_type: &DaoType, dao_gov_config: &GovConfig) -> (r: Result<
    (),
    GovernanceControllerError,
>)
    ensures
        agrees(r, gov_config_fault(*dao_type, *dao_gov_config)),
{
    if dao_gov_config.vote_duration == 0 {
        return Err(GovernanceControllerError::ZeroVoteDuration);
    }
    if let Duration::Time(unlocking_time) = dao_gov_config.unlocking_period {
        if unlocking_time < dao_gov_config.vote_duration {
            return Err(GovernanceControllerError::VoteDurationLongerThanUnstaking);
        }
    }
    match validate_quorum_value(dao_gov_config.quorum) {
        Err(e) => {
            return Err(e);
        },
        Ok(_) => {},
    }
    match validate_threshold_value(dao_gov_config.threshold) {
        Err(e) => {
            return Err(e);
        },
        Ok(_) => {},
    }
    if let Some(veto_threshold) = dao_gov_config.veto_threshold {
        if veto_threshold.gt(&Decimal::one()) || veto_threshold.is_zero() {
            return Err(
                GovernanceControllerError::InvalidArgument {
                    msg: "Invalid veto threshold, must be 0 < threshold <= 1".to_owned(),
                },
            );
        }
    }
    if dao_gov_config.minimum_deposit.is_some() && (*dao_type == DaoType::Nft || *dao_type
        == DaoType::Multisig) {
        return Err(GovernanceControllerError::MinimumDepositNotAllowed);
    }
    Ok(())
}

/// Checks that a quorum is more than nothing and no more than the whole.
pub fn validate_quorum_value(quorum: Decimal) -> (r: Result<(), GovernanceControllerError>)
    ensures
        agrees(r, quorum_fault(quorum)),
{
    if quorum.gt(&Decimal::one()) || quorum.is_zero() {
        return Err(
            GovernanceControllerError::InvalidArgument {
                msg: "Invalid quorum, must be 0 < quorum <= 1".to_owned(),
            },
        );
    }
    Ok(())
}

/// Checks that a threshold is more than nothing and no more than the whole.
pub fn validate_threshold_value(threshold: Decimal) -> (r: Result<(), GovernanceControllerError>)
    ensures
        agrees(r, threshold_fault(threshold)),
{
    if threshold.gt(&Decimal::one()) || threshold.is_zero() {
        return Err(
            GovernanceControllerError::InvalidArgument {
                msg: "Invalid threshold, must be 0 < threshold <= 1".to_owned(),
            },
        );
    }
    Ok(())
}

/// What is wrong with a deposit under a configuration, if anything: it is
/// less than the minimum. No deposit counts as a deposit of nothing.
pub open spec fn deposit_fault(config: GovConfig, deposit: Option<ProposalDeposit>) -> Option<
    GovernanceErrorView,
> {
    match config.minimum_deposit {
        None => None,
        Some(required_amount) => {
            let deposited: u128 = match deposit {
                Some(d) => d.amount,
                None => 0,
            };
            if deposited >= required_amount {
                None
            } else {
                Some(GovernanceErrorView::InsufficientProposalDeposit { required_amount })
            }
        },
    }
}

/// Checks that a proposal's deposit reaches the minimum, where there is one.
pub fn validate_deposit(gov_config: &GovConfig, deposit: &Option<ProposalDeposit>) -> (r: Result<
    (),
    GovernanceControllerError,
>)
    ensures
        agrees(r, deposit_fault(*gov_config, *deposit)),
{
    match gov_config.minimum_deposit {
        None => Ok(()),
        Some(required_amount) => {
            let deposited_amount: u128 = match deposit {
                Some(d) => d.amount,
                None => 0,
            };
            if deposited_amount >= required_amount {
                Ok(())
            } else {
                Err(GovernanceControllerError::InsufficientProposalDeposit { required_amount })
            }
        },
    }
}

impl<T> ModifyValue<T> {
    /// The new value, or `old` where there is no change.
    pub open spec fn or(self, old: T) -> T {
        match self {
            ModifyValue::Change(new) => new,
            ModifyValue::NoChange => old,
        }
    }
}

/// A configuration with the changes of `msg` made.
pub open spec fn changed_gov_config(config: GovConfig, msg: UpdateGovConfigMsg) -> GovConfig {
    GovConfig {
        quorum: msg.quorum.or(config.quorum),
        threshold: msg.threshold.or(config.threshold),
        veto_threshold: msg.veto_threshold.or(config.veto_threshold),
        vote_duration: msg.voting_duration.or(config.vote_duration),
        unlocking_period: msg.unlocking_period.or(config.unlocking_period),
        minimum_deposit: msg.minimum_deposit.or(config.minimum_deposit),
        allow_early_proposal_execution: msg.allow_early_proposal_execution.or(
            config.allow_early_proposal_execution,
        ),
    }
}

/// Makes the changes of `msg` to a configuration: each field that the message
/// changes takes the new value, every other field stays.
pub fn apply_gov_config_changes(gov_config: GovConfig, msg: &UpdateGovConfigMsg) -> (r: GovConfig)
    ensures
        r == changed_gov_config(gov_config, *msg),
{
    let mut gov_config = gov_config;
    if let ModifyValue::Change(quorum) = msg.quorum {
        gov_config.quorum = quorum;
    }
    if let ModifyValue::Change(threshold) = msg.threshold {
        gov_config.threshold = threshold;
    }
    if let ModifyValue::Change(veto_threshold) = msg.veto_threshold {
        gov_config.veto_threshold = veto_threshold;
    }
    if let ModifyValue::Change(voting_duration) = msg.voting_duration {
        gov_config.vote_duration = voting_duration;
    }
    if let ModifyValue::Change(unlocking_period) = msg.unlocking_period {
        gov_config.unlocking_period = unlocking_period;
    }
    if let ModifyValue::Change(minimum_deposit) = msg.minimum_deposit {
        gov_config.minimum_deposit = minimum_deposit;
    }
    if let ModifyValue::Change(allow_early_proposal_execution) =
        msg.allow_early_proposal_execution {
        gov_config.allow_early_proposal_execution = allow_early_proposal_execution;
    }
    gov_config
}

/// An earlier address of the list has the text of the one at `i`.
pub open spec fn addr_repeats(addrs: Seq<AddrView>, i: int) -> bool {
    exists|j: int| 0 <= j < i && (#[trigger] addrs[j]).text == addrs[i].text
}

/// Whether an earlier address of the list has the text of the one at `i`.
pub fn addr_seen_before(addrs: &Vec<Addr>, i: usize) -> (seen: bool)
    requires
        i < addrs.len(),
    ensures
        seen == addr_repeats(views(addrs@), i as int),
{
    let mut j: usize = 0;
    while j < i
        invariant
            j <= i < addrs.len(),
            forall|k: int| 0 <= k < j ==> (#[trigger] views(addrs@)[k]).text != addrs[i as int].text@,
        decreases i - j,
    {
        if addrs[j].text == addrs[i].text {
            proof {
                assert(views(addrs@)[j as int].text == views(addrs@)[i as int].text);
            }
            return true;
        }
        j += 1;
    }
    false
}

/// What is wrong with the address at `i` of a list in which `duplicate` is
/// the error for an address that occurs twice: the host rejected it, or it
/// occurs earlier in the list.
pub open spec fn addr_fault(
    addrs: Seq<AddrView>,
    i: int,
    duplicate: GovernanceErrorView,
) -> Option<GovernanceErrorView> {
    if !addrs[i].valid {
        Some(GovernanceErrorView::InvalidAddress { addr: addrs[i].text })
    } else if addr_repeats(addrs, i) {
        Some(duplicate)
    } else {
        None
    }
}

/// The faults of a list of collections, one by one.
pub open spec fn nft_faults(addrs: Seq<AddrView>) -> Seq<Option<GovernanceErrorView>> {
    Seq::new(
        addrs.len(),
        |i: int| addr_fault(addrs, i, GovernanceErrorView::DuplicateNftFound),
    )
}

/// Some collection is on both lists.
pub open spec fn nft_on_both(add: Seq<AddrView>, remove: Seq<AddrView>) -> bool {
    exists|i: int, j: int|
        0 <= i < add.len() && 0 <= j < remove.len() && (#[trigger] add[i]).text == (
        #[trigger] remove[j]).text
}

/// What is wrong with a change of the collection whitelist, if anything: the
/// first fault of the list to add, else the first of the list to remove,
/// else a collection that is on both.
pub open spec fn nft_whitelist_fault(add: Seq<AddrView>, remove: Seq<AddrView>) -> Option<
    GovernanceErrorView,
> {
    if first_fault(nft_faults(add)) is Some {
        first_fault(nft_faults(add))
    } else if first_fault(nft_faults(remove)) is Some {
        first_fault(nft_faults(remove))
    } else if nft_on_both(add, remove) {
        Some(GovernanceErrorView::NftPresentInBothAddAndRemove)
    } else {
        None
    }
}

/// Checks one list of collections: every address accepted, none twice.
fn validate_nft_list(nfts: &Vec<Addr>) -> (r: Result<(), GovernanceControllerError>)
    ensures
        agrees(r, first_fault(nft_faults(views(nfts@)))),
{
    let ghost faults = nft_faults(views(nfts@));
    let mut i: usize = 0;
    proof {
        assert(faults.take(0) =~= Seq::empty());
    }
    while i < nfts.len()
        invariant
            i <= nfts.len(),
            faults == nft_faults(views(nfts@)),
            first_fault(faults.take(i as int)) is None,
        decreases nfts.len() - i,
    {
        proof {
            lemma_first_fault_step(faults, i as int);
            assert(views(nfts@)[i as int] == nfts[i as int]@);
        }
        if !nfts[i].valid {
            proof {
                lemma_first_fault_stays(faults, i + 1);
            }
            return Err(GovernanceControllerError::InvalidAddress { addr: nfts[i].text.clone() });
        }
        if addr_seen_before(nfts, i) {
            proof {
                lemma_first_fault_stays(faults, i + 1);
            }
            return Err(GovernanceControllerError::DuplicateNftFound);
        }
        i += 1;
    }
    proof {
        assert(faults.take(nfts.len() as int) =~= faults);
    }
    Ok(())
}

/// Whether some address is on both lists.
fn addrs_intersect(a: &Vec<Addr>, b: &Vec<Addr>) -> (found: bool)
    ensures
        found == nft_on_both(views(a@), views(b@)),
{
    let mut i: usize = 0;
    while i < a.len()
        invariant
            i <= a.len(),
            forall|x: int, y: int|
                0 <= x < i && 0 <= y < b.len() ==> (#[trigger] views(a@)[x]).text != (
                #[trigger] views(b@)[y]).text,
        decreases a.len() - i,
    {
        let mut j: usize = 0;
        while j < b.len()
            invariant
                i < a.len(),
                j <= b.len(),
                forall|y: int|
                    0 <= y < j ==> views(a@)[i as int].text != (#[trigger] views(b@)[y]).text,
            decreases b.len() - j,
        {
            if a[i].text == b[j].text {
                proof {
                    assert(views(a@)[i as int].text == views(b@)[j as int].text);
                }
                return true;
            }
            j += 1;
        }
        i += 1;
    }
    false
}

/// Checks a change of the collection whitelist: on each list every address
/// accepted and none twice, and no collection on both.
pub fn validate_nft_whitelist_changes(add: &Vec<Addr>, remove: &Vec<Addr>) -> (r: Result<
    (),
    GovernanceControllerError,
>)
    ensures
        agrees(r, nft_whitelist_fault(views(add@), views(remove@))),
{
    match validate_nft_list(add) {
        Err(e) => {
            return Err(e);
        },
        Ok(_) => {},
    }
    match validate_nft_list(remove) {
        Err(e) => {
            return Err(e);
        },
        Ok(_) => {},
    }
    if addrs_intersect(add, remove) {
        return Err(GovernanceControllerError::NftPresentInBothAddAndRemove);
    }
    Ok(())
}

/// Checks an upgrade of the organization. There is nothing to check.
pub fn validate_upgrade_dao(msg: &UpgradeDaoMsg) -> (r: Result<(), GovernanceControllerError>)
    ensures
        r is Ok,
{
    Ok(())
}

/// The addresses of the members that a message edits.
pub open spec fn edited_members(edits: Seq<UserWeightView>) -> Seq<AddrView> {
    Seq::new(edits.len(), |i: int| edits[i].user)
}

/// The faults of a list of membership edits, one by one.
pub open spec fn multisig_faults(edits: Seq<UserWeightView>) -> Seq<Option<GovernanceErrorView>> {
    Seq::new(
        edits.len(),
        |i: int|
            addr_fault(
                edited_members(edits),
                i,
                GovernanceErrorView::DuplicateMultisigMemberWeightEdit,
            ),
    )
}

/// What is wrong with a change of multisig membership, if anything: the
/// organization is no multisig, or the first fault among the edits.
pub open spec fn multisig_membership_fault(dao_type: DaoType, edits: Seq<UserWeightView>) -> Option<
    GovernanceErrorView,
> {
    if dao_type != DaoType::Multisig {
        Some(GovernanceErrorView::UnsupportedOperationForDaoType { dao_type: dao_type.name_spec() })
    } else {
        first_fault(multisig_faults(edits))
    }
}

/// Whether an earlier edit names the member that the edit at `i` names.
fn member_seen_before(edits: &Vec<UserWeight>, i: usize) -> (seen: bool)
    requires
        i < edits.len(),
    ensures
        seen == addr_repeats(edited_members(views(edits@)), i as int),
{
    let ghost members = edited_members(views(edits@));
    let mut j: usize = 0;
    while j < i
        invariant
            j <= i < edits.len(),
            members == edited_members(views(edits@)),
            forall|k: int| 0 <= k < j ==> (#[trigger] members[k]).text != edits[i as int].user.text@,
        decreases i - j,
    {
        if edits[j].user.text == edits[i].user.text {
            proof {
                assert(members[j as int].text == members[i as int].text);
            }
            return true;
        }
        j += 1;
    }
    false
}

/// Checks a change of multisig membership: the organization is a multisig,
/// every address was accepted, and no member is edited twice.
pub fn validate_modify_multisig_membership(
    dao_type: DaoType,
    msg: &ModifyMultisigMembershipMsg,
) -> (r: Result<(), GovernanceControllerError>)
    ensures
        agrees(r, multisig_membership_fault(dao_type, views(msg.edit_members@))),
{
    if dao_type != DaoType::Multisig {
        return Err(
            GovernanceControllerError::UnsupportedOperationForDaoType { dao_type: dao_type.name() },
        );
    }
    let edits = &msg.edit_members;
    let ghost faults = multisig_faults(views(edits@));
    let mut i: usize = 0;
    proof {
        assert(faults.take(0) =~= Seq::empty());
    }
    while i < edits.len()
        invariant
            i <= edits.len(),
            dao_type == DaoType::Multisig,
            *edits == msg.edit_members,
            faults == multisig_faults(views(edits@)),
            first_fault(faults.take(i as int)) is None,
        decreases edits.len() - i,
    {
        proof {
            lemma_first_fault_step(faults, i as int);
            assert(views(edits@)[i as int] == edits[i as int]@);
        }
        if !edits[i].user.valid {
            proof {
                lemma_first_fault_stays(faults, i + 1);
            }
            return Err(
                GovernanceControllerError::InvalidAddress { addr: edits[i].user.text.clone() },
            );
        }
        if member_seen_before(edits, i) {
            proof {
                lemma_first_fault_stays(faults, i + 1);
            }
            return Err(GovernanceControllerError::DuplicateMultisigMemberWeightEdit);
        }
        i += 1;
    }
    proof {
        assert(faults.take(edits.len() as int) =~= faults);
    }
    Ok(())
}

/// The faults of a list of council members, one by one.
pub open spec fn council_member_faults(members: Seq<AddrView>) -> Seq<Option<GovernanceErrorView>> {
    Seq::new(
        members.len(),
        |i: int|
            addr_fault(
                members,
                i,
                GovernanceErrorView::DuplicateCouncilMember { member: members[i].text },
            ),
    )
}

/// Checks the members of a council: every address accepted, none twice.
pub fn check_council_members(members: &Vec<Addr>) -> (r: Result<(), GovernanceControllerError>)
    ensures
        agrees(r, first_fault(council_member_faults(views(members@)))),
{
    let ghost faults = council_member_faults(views(members@));
    let mut i: usize = 0;
    proof {
        assert(faults.take(0) =~= Seq::empty());
    }
    while i < members.len()
        invariant
            i <= members.len(),
            faults == council_member_faults(views(members@)),
            first_fault(faults.take(i as int)) is None,
        decreases members.len() - i,
    {
        proof {
            lemma_first_fault_step(faults, i as int);
            assert(views(members@)[i as int] == members[i as int]@);
        }
        if !members[i].valid {
            proof {
                lemma_first_fault_stays(faults, i + 1);
            }
            return Err(
                GovernanceControllerError::InvalidAddress { addr: members[i].text.clone() },
            );
        }
        if addr_seen_before(members, i) {
            proof {
                lemma_first_fault_stays(faults, i + 1);
            }
            return Err(
                GovernanceControllerError::DuplicateCouncilMember {
                    member: members[i].text.clone(),
                },
            );
        }
        i += 1;
    }
    proof {
        assert(faults.take(members.len() as int) =~= faults);
    }
    Ok(())
}

/// Checks the members of a council: every address accepted, none twice.
/// Returns the members in the order given.
pub fn validate_no_duplicate_council_members(members: Vec<Addr>) -> (r: Result<
    Vec<Addr>,
    GovernanceControllerError,
>)
    ensures
        agrees(r, first_fault(council_member_faults(views(members@)))),
        r matches Ok(addrs) ==> addrs == members,
{
    match check_council_members(&members) {
        Err(e) => Err(e),
        Ok(_) => Ok(members),
    }
}

/// Whether a council may propose actions of this kind.
pub open spec fn council_may_propose(action: ProposalActionType) -> bool {
    action == ProposalActionType::UpdateMetadata || action
        == ProposalActionType::UpdateAssetWhitelist || action
        == ProposalActionType::UpdateNftWhitelist || action == ProposalActionType::UpgradeDao
}

/// The faults of a list of kinds of action, one by one.
pub open spec fn council_type_faults(types: Seq<ProposalActionType>) -> Seq<
    Option<GovernanceErrorView>,
> {
    Seq::new(
        types.len(),
        |i: int|
            if council_may_propose(types[i]) {
                None
            } else {
                Some(GovernanceErrorView::UnsupportedCouncilProposalAction { action: types[i] })
            },
    )
}

/// What is wrong with the kinds of action allowed to a council, if anything:
/// the first that no council may propose.
pub open spec fn council_types_fault(types: Option<Vec<ProposalActionType>>) -> Option<
    GovernanceErrorView,
> {
    match types {
        None => None,
        Some(v) => first_fault(council_type_faults(v@)),
    }
}

/// Checks that the kinds of action allowed to a council hold none that a
/// council must not be able to propose.
pub fn validate_allowed_council_proposal_types(
    proposal_action_types: Option<Vec<ProposalActionType>>,
) -> (r: Result<(), GovernanceControllerError>)
    ensures
        agrees(r, council_types_fault(proposal_action_types)),
{
    match proposal_action_types {
        None => Ok(()),
        Some(action_types) => check_council_types(&action_types),
    }
}

/// Checks a list of kinds of action against what a council may propose.
fn check_council_types(action_types: &Vec<ProposalActionType>) -> (r: Result<
    (),
    GovernanceControllerError,
>)
    ensures
        agrees(r, first_fault(council_type_faults(action_types@))),
{
    let ghost faults = council_type_faults(action_types@);
    let mut i: usize = 0;
    proof {
        assert(faults.take(0) =~= Seq::empty());
    }
    while i < action_types.len()
        invariant
            i <= action_types.len(),
            faults == council_type_faults(action_types@),
            first_fault(faults.take(i as int)) is None,
        decreases action_types.len() - i,
    {
        proof {
            lemma_first_fault_step(faults, i as int);
        }
        let action_type = action_types[i];
        match action_type {
            ProposalActionType::UpdateGovConfig
            | ProposalActionType::UpdateCouncil
            | ProposalActionType::RequestFundingFromDao
            | ProposalActionType::ExecuteMsgs
            | ProposalActionType::ModifyMultisigMembership
            | ProposalActionType::DistributeFunds
            | ProposalActionType::UpdateMinimumWeightForRewards => {
                proof {
                    lemma_first_fault_stays(faults, i + 1);
                }
                return Err(
                    GovernanceControllerError::UnsupportedCouncilProposalAction {
                        action: action_type,
                    },
                );
            },
            ProposalActionType::UpdateMetadata
            | ProposalActionType::UpdateAssetWhitelist
            | ProposalActionType::UpdateNftWhitelist
            | ProposalActionType::UpgradeDao => {},
        }
        i += 1;
    }
    proof {
        assert(faults.take(action_types.len() as int) =~= faults);
    }
    Ok(())
}

/// What is wrong with a council as asked for, if anything. The checks are
/// made in this order: the members, the kinds of action allowed, the quorum,
/// the threshold.
pub open spec fn council_fault(council: Option<DaoCouncilSpec>) -> Option<GovernanceErrorView> {
    match council {
        None => None,
        Some(c) => {
            if first_fault(council_member_faults(views(c.members@))) is Some {
                first_fault(council_member_faults(views(c.members@)))
            } else if council_types_fault(c.allowed_proposal_action_types) is Some {
                council_types_fault(c.allowed_proposal_action_types)
            } else if quorum_fault(c.quorum) is Some {
                quorum_fault(c.quorum)
            } else {
                threshold_fault(c.threshold)
            }
        },
    }
}

/// The kinds of action that a council may propose: those it was given, or
/// only upgrades where it was given none.
pub open spec fn council_types_or_default(types: Option<Vec<ProposalActionType>>) -> Seq<
    ProposalActionType,
> {
    match types {
        Some(v) => v@,
        None => seq![ProposalActionType::UpgradeDao],
    }
}

/// Checks a council as asked for.
pub fn check_dao_council(dao_council: &Option<DaoCouncilSpec>) -> (r: Result<
    (),
    GovernanceControllerError,
>)
    ensures
        agrees(r, council_fault(*dao_council)),
{
    match dao_council {
        None => Ok(()),
        Some(asked) => {
            match check_council_members(&asked.members) {
                Err(e) => {
                    return Err(e);
                },
                Ok(_) => {},
            }
            match &asked.allowed_proposal_action_types {
                Some(types) => {
                    match check_council_types(types) {
                        Err(e) => {
                            return Err(e);
                        },
                        Ok(_) => {},
                    }
                },
                None => {},
            }
            match validate_quorum_value(asked.quorum) {
                Err(e) => {
                    return Err(e);
                },
                Ok(_) => {},
            }
            validate_threshold_value(asked.threshold)
        },
    }
}

/// Checks a council as asked for and gives the council that it makes: no
/// council where none is asked for.
pub fn validate_dao_council(dao_council: Option<DaoCouncilSpec>) -> (r: Result<
    Option<DaoCouncil>,
    GovernanceControllerError,
>)
    ensures
        agrees(r, council_fault(dao_council)),
        r matches Ok(made) ==> match dao_council {
            None => made is None,
            Some(asked) => made matches Some(c) && c.members == asked.members
                && c.allowed_proposal_action_types@ == council_types_or_default(
                asked.allowed_proposal_action_types,
            ) && c.quorum == asked.quorum && c.threshold == asked.threshold,
        },
{
    match dao_council {
        None => Ok(None),
        Some(dao_council) => {
            let DaoCouncilSpec { members, quorum, threshold, allowed_proposal_action_types } =
                dao_council;
            let members = match validate_no_duplicate_council_members(members) {
                Ok(m) => m,
                Err(e) => {
                    return Err(e);
                },
            };
            let allowed = match allowed_proposal_action_types {
                Some(types) => {
                    match check_council_types(&types) {
                        Err(e) => {
                            return Err(e);
                        },
                        Ok(_) => {},
                    }
                    types
                },
                None => {
                    let mut only: Vec<ProposalActionType> = Vec::new();
                    only.push(ProposalActionType::UpgradeDao);
                    proof {
                        assert(only@ =~= seq![ProposalActionType::UpgradeDao]);
                    }
                    only
                },
            };
            match validate_quorum_value(quorum) {
                Err(e) => {
                    return Err(e);
                },
                Ok(_) => {},
            }
            match validate_threshold_value(threshold) {
                Err(e) => {
                    return Err(e);
                },
                Ok(_) => {},
            }
            Ok(Some(DaoCouncil { members, allowed_proposal_action_types: allowed, quorum, threshold }))
        },
    }
}

/// The faults of a list of funds, one by one: an asset of a kind that cannot
/// be distributed.
pub open spec fn fund_faults(funds: Seq<Asset>) -> Seq<Option<GovernanceErrorView>> {
    Seq::new(
        funds.len(),
        |i: int|
            if funds[i].info is Cw1155 {
                Some(GovernanceErrorView::Std { msg: "cw1155 is not supported at this time"@ })
            } else {
                None
            },
    )
}

/// Checks that every asset of a distribution is of a kind that can be
/// distributed: native or token.
pub fn validate_distribute_funds(msg: &DistributeFundsMsg) -> (r: Result<
    (),
    GovernanceControllerError,
>)
    ensures
        agrees(r, first_fault(fund_faults(msg.funds@))),
{
    let funds = &msg.funds;
    let ghost faults = fund_faults(funds@);
    let mut i: usize = 0;
    proof {
        assert(faults.take(0) =~= Seq::empty());
    }
    while i < funds.len()
        invariant
            i <= funds.len(),
            *funds == msg.funds,
            faults == fund_faults(funds@),
            first_fault(faults.take(i as int)) is None,
        decreases funds.len() - i,
    {
        proof {
            lemma_first_fault_step(faults, i as int);
        }
        match &funds[i].info {
            AssetInfo::Native(_) | AssetInfo::Cw20(_) => {},
            AssetInfo::Cw1155(_, _) => {
                proof {
                    lemma_first_fault_stays(faults, i + 1);
                }
                return Err(
                    GovernanceControllerError::Std {
                        msg: "cw1155 is not supported at this time".to_owned(),
                    },
                );
            },
        }
        i += 1;
    }
    proof {
        assert(faults.take(funds.len() as int) =~= faults);
    }
    Ok(())
}

/// Whether both name the same asset: the same kind and the same identifier.
pub open spec fn same_asset(a: AssetInfoView, b: AssetInfoView) -> bool {
    match (a, b) {
        (AssetInfoView::Native(x), AssetInfoView::Native(y)) => x == y,
        (AssetInfoView::Cw20(x), AssetInfoView::Cw20(y)) => x.text == y.text,
        (AssetInfoView::Cw1155(x, i), AssetInfoView::Cw1155(y, j)) => x.text == y.text && i == j,
        _ => false,
    }
}

/// Whether both name the same asset.
pub fn is_same_asset(a: &AssetInfo, b: &AssetInfo) -> (same: bool)
    ensures
        same == same_asset(a@, b@),
{
    match (a, b) {
        (AssetInfo::Native(x), AssetInfo::Native(y)) => *x == *y,
        (AssetInfo::Cw20(x), AssetInfo::Cw20(y)) => x.text == y.text,
        (AssetInfo::Cw1155(x, i), AssetInfo::Cw1155(y, j)) => x.text == y.text && *i == *j,
        _ => false,
    }
}

/// An earlier asset of the list is the one at `i`.
pub open spec fn asset_repeats(assets: Seq<AssetInfoView>, i: int) -> bool {
    exists|j: int| 0 <= j < i && same_asset(#[trigger] assets[j], assets[i])
}

/// Whether an earlier asset of the list is the one at `i`.
fn asset_seen_before(assets: &Vec<AssetInfo>, i: usize) -> (seen: bool)
    requires
        i < assets.len(),
    ensures
        seen == asset_repeats(views(assets@), i as int),
{
    let mut j: usize = 0;
    while j < i
        invariant
            j <= i < assets.len(),
            forall|k: int|
                0 <= k < j ==> !same_asset(#[trigger] views(assets@)[k], assets[i as int]@),
        decreases i - j,
    {
        if is_same_asset(&assets[j], &assets[i]) {
            proof {
                assert(same_asset(views(assets@)[j as int], views(assets@)[i as int]));
            }
            return true;
        }
        j += 1;
    }
    false
}

/// The address that an asset is identified by, where it has one.
pub open spec fn asset_addr(asset: AssetInfoView) -> Option<AddrView> {
    match asset {
        AssetInfoView::Native(_) => None,
        AssetInfoView::Cw20(addr) => Some(addr),
        AssetInfoView::Cw1155(addr, _) => Some(addr),
    }
}

/// What is wrong with the asset at `i` of a list: the host rejected its
/// address, or it occurs earlier in the list.
pub open spec fn asset_fault(assets: Seq<AssetInfoView>, i: int) -> Option<GovernanceErrorView> {
    if asset_addr(assets[i]) is Some && !asset_addr(assets[i])->0.valid {
        Some(GovernanceErrorView::InvalidAddress { addr: asset_addr(assets[i])->0.text })
    } else if asset_repeats(assets, i) {
        Some(GovernanceErrorView::DuplicateAssetFound)
    } else {
        None
    }
}

/// The faults of a list of assets, one by one.
pub open spec fn asset_faults(assets: Seq<AssetInfoView>) -> Seq<Option<GovernanceErrorView>> {
    Seq::new(assets.len(), |i: int| asset_fault(assets, i))
}

/// The native denominations of a list of assets, in order.
pub open spec fn natives_of(assets: Seq<AssetInfoView>) -> Seq<Seq<char>>
    decreases assets.len(),
{
    if assets.len() == 0 {
        Seq::empty()
    } else {
        let rest = natives_of(assets.drop_last());
        match assets.last() {
            AssetInfoView::Native(denom) => rest.push(denom),
            _ => rest,
        }
    }
}

/// The token contracts of a list of assets, in order.
pub open spec fn cw20s_of(assets: Seq<AssetInfoView>) -> Seq<AddrView>
    decreases assets.len(),
{
    if assets.len() == 0 {
        Seq::empty()
    } else {
        let rest = cw20s_of(assets.drop_last());
        match assets.last() {
            AssetInfoView::Cw20(addr) => rest.push(addr),
            _ => rest,
        }
    }
}

/// The multi-token contracts of a list of assets with their token ids, in
/// order.
pub open spec fn cw1155s_of(assets: Seq<AssetInfoView>) -> Seq<(AddrView, Seq<char>)>
    decreases assets.len(),
{
    if assets.len() == 0 {
        Seq::empty()
    } else {
        let rest = cw1155s_of(assets.drop_last());
        match assets.last() {
            AssetInfoView::Cw1155(addr, id) => rest.push((addr, id)),
            _ => rest,
        }
    }
}

/// A list of assets sorted out by kind, each kind in the order of the list.
#[derive(Clone, Debug, PartialEq, Eq)]
pub struct AssetInfoSets {
    pub native: Vec<String>,
    pub cw20: Vec<Addr>,
    pub cw1155: Vec<(Addr, String)>,
}

impl AssetInfoSets {
    /// Whether these are the assets of `assets`, sorted out by kind.
    pub open spec fn holds(self, assets: Seq<AssetInfoView>) -> bool {
        &&& views(self.native@) == natives_of(assets)
        &&& views(self.cw20@) == cw20s_of(assets)
        &&& views(self.cw1155@) == cw1155s_of(assets)
    }
}

/// Sorts a list of assets out by kind, or names its first fault: an address
/// that the host rejected, or an asset that occurs twice.
pub fn split_assets(assets: &Vec<AssetInfo>) -> (r: Result<
    AssetInfoSets,
    GovernanceControllerError,
>)
    ensures
        agrees(r, first_fault(asset_faults(views(assets@)))),
        r matches Ok(sets) ==> sets.holds(views(assets@)),
{
    let ghost all = views(assets@);
    let ghost faults = asset_faults(all);
    let mut native: Vec<String> = Vec::new();
    let mut cw20: Vec<Addr> = Vec::new();
    let mut cw1155: Vec<(Addr, String)> = Vec::new();
    let mut i: usize = 0;
    proof {
        assert(faults.take(0) =~= Seq::empty());
        assert(all.take(0) =~= Seq::empty());
        assert(views(native@) =~= Seq::empty());
        assert(views(cw20@) =~= Seq::empty());
        assert(views(cw1155@) =~= Seq::empty());
    }
    while i < assets.len()
        invariant
            i <= assets.len(),
            all == views(assets@),
            faults == asset_faults(all),
            first_fault(faults.take(i as int)) is None,
            views(native@) == natives_of(all.take(i as int)),
            views(cw20@) == cw20s_of(all.take(i as int)),
            views(cw1155@) == cw1155s_of(all.take(i as int)),
        decreases assets.len() - i,
    {
        let ghost n0 = views(native@);
        let ghost c0 = views(cw20@);
        let ghost m0 = views(cw1155@);
        proof {
            lemma_first_fault_step(faults, i as int);
            assert(all[i as int] == assets[i as int]@);
            assert(all.take(i + 1).drop_last() =~= all.take(i as int));
            assert(all.take(i + 1).last() == all[i as int]);
        }
        match &assets[i] {
            AssetInfo::Native(denom) => {
                if asset_seen_before(assets, i) {
                    proof {
                        lemma_first_fault_stays(faults, i + 1);
                    }
                    return Err(GovernanceControllerError::DuplicateAssetFound);
                }
                native.push(denom.clone());
                proof {
                    assert(views(native@) =~= n0.push(denom@));
                }
            },
            AssetInfo::Cw20(addr) => {
                if !addr.valid {
                    proof {
                        lemma_first_fault_stays(faults, i + 1);
                    }
                    return Err(GovernanceControllerError::InvalidAddress { addr: addr.text.clone() });
                }
                if asset_seen_before(assets, i) {
                    proof {
                        lemma_first_fault_stays(faults, i + 1);
                    }
                    return Err(GovernanceControllerError::DuplicateAssetFound);
                }
                cw20.push(addr.duplicate());
                proof {
                    assert(views(cw20@) =~= c0.push(addr@));
                }
            },
            AssetInfo::Cw1155(addr, id) => {
                if !addr.valid {
                    proof {
                        lemma_first_fault_stays(faults, i + 1);
                    }
                    return Err(GovernanceControllerError::InvalidAddress { addr: addr.text.clone() });
                }
                if asset_seen_before(assets, i) {
                    proof {
                        lemma_first_fault_stays(faults, i + 1);
                    }
                    return Err(GovernanceControllerError::DuplicateAssetFound);
                }
                cw1155.push((addr.duplicate(), id.clone()));
                proof {
                    assert(views(cw1155@) =~= m0.push((addr@, id@)));
                }
            },
        }
        i += 1;
    }
    proof {
        assert(faults.take(assets.len() as int) =~= faults);
        assert(all.take(assets.len() as int) =~= all);
    }
    Ok(AssetInfoSets { native, cw20, cw1155 })
}

/// A list of assets with the native ones first, the tokens next and the
/// multi-tokens last, each kind in the order of the list.
pub open spec fn normalized(assets: Seq<AssetInfoView>) -> Seq<AssetInfoView> {
    let native = natives_of(assets);
    let cw20 = cw20s_of(assets);
    let cw1155 = cw1155s_of(assets);
    Seq::new(native.len(), |i: int| AssetInfoView::Native(native[i])) + Seq::new(
        cw20.len(),
        |i: int| AssetInfoView::Cw20(cw20[i]),
    ) + Seq::new(cw1155.len(), |i: int| AssetInfoView::Cw1155(cw1155[i].0, cw1155[i].1))
}

/// Puts an asset whitelist in its normal order, by kind, or names its first
/// fault: an address that the host rejected, or an asset that occurs twice.
pub fn normalize_asset_whitelist(asset_whitelist: &Vec<AssetInfo>) -> (r: Result<
    Vec<AssetInfo>,
    GovernanceControllerError,
>)
    ensures
        agrees(r, first_fault(asset_faults(views(asset_whitelist@)))),
        r matches Ok(list) ==> views(list@) == normalized(views(asset_whitelist@)),
{
    let sets = match split_assets(asset_whitelist) {
        Ok(sets) => sets,
        Err(e) => {
            return Err(e);
        },
    };
    let ghost all = views(asset_whitelist@);
    let ghost first = Seq::new(
        natives_of(all).len(),
        |i: int| AssetInfoView::Native(natives_of(all)[i]),
    );
    let ghost second = Seq::new(cw20s_of(all).len(), |i: int| AssetInfoView::Cw20(cw20s_of(all)[i]));
    let ghost third = Seq::new(
        cw1155s_of(all).len(),
        |i: int| AssetInfoView::Cw1155(cw1155s_of(all)[i].0, cw1155s_of(all)[i].1),
    );
    let mut normalized_asset_whitelist: Vec<AssetInfo> = Vec::new();
    let mut a: usize = 0;
    proof {
        assert(views(normalized_asset_whitelist@) =~= first.take(0));
    }
    while a < sets.native.len()
        invariant
            a <= sets.native.len(),
            sets.holds(all),
            first == Seq::new(
                natives_of(all).len(),
                |i: int| AssetInfoView::Native(natives_of(all)[i]),
            ),
            views(normalized_asset_whitelist@) == first.take(a as int),
        decreases sets.native.len() - a,
    {
        let ghost before = views(normalized_asset_whitelist@);
        proof {
            assert(views(sets.native@)[a as int] == sets.native[a as int]@);
        }
        let asset = AssetInfo::Native(sets.native[a].clone());
        normalized_asset_whitelist.push(asset);
        proof {
            assert(views(normalized_asset_whitelist@) =~= before.push(asset@));
            assert(first.take(a + 1) =~= first.take(a as int).push(first[a as int]));
        }
        a += 1;
    }
    let mut b: usize = 0;
    proof {
        assert(first.take(sets.native.len() as int) =~= first);
        assert(views(normalized_asset_whitelist@) =~= first + second.take(0));
    }
    while b < sets.cw20.len()
        invariant
            b <= sets.cw20.len(),
            sets.holds(all),
            second == Seq::new(cw20s_of(all).len(), |i: int| AssetInfoView::Cw20(cw20s_of(all)[i])),
            views(normalized_asset_whitelist@) == first + second.take(b as int),
        decreases sets.cw20.len() - b,
    {
        let ghost before = views(normalized_asset_whitelist@);
        proof {
            assert(views(sets.cw20@)[b as int] == sets.cw20[b as int]@);
        }
        let asset = AssetInfo::Cw20(sets.cw20[b].duplicate());
        normalized_asset_whitelist.push(asset);
        proof {
            assert(views(normalized_asset_whitelist@) =~= before.push(asset@));
            assert(second.take(b + 1) =~= second.take(b as int).push(second[b as int]));
            assert(first + second.take(b + 1) =~= (first + second.take(b as int)).push(
                second[b as int],
            ));
        }
        b += 1;
    }
    let mut c: usize = 0;
    proof {
        assert(second.take(sets.cw20.len() as int) =~= second);
        assert(views(normalized_asset_whitelist@) =~= first + second + third.take(0));
    }
    while c < sets.cw1155.len()
        invariant
            c <= sets.cw1155.len(),
            sets.holds(all),
            third == Seq::new(
                cw1155s_of(all).len(),
                |i: int| AssetInfoView::Cw1155(cw1155s_of(all)[i].0, cw1155s_of(all)[i].1),
            ),
            views(normalized_asset_whitelist@) == first + second + third.take(c as int),
        decreases sets.cw1155.len() - c,
    {
        let ghost before = views(normalized_asset_whitelist@);
        proof {
            assert(views(sets.cw1155@)[c as int] == sets.cw1155[c as int]@);
        }
        let asset = AssetInfo::Cw1155(sets.cw1155[c].0.duplicate(), sets.cw1155[c].1.clone());
        normalized_asset_whitelist.push(asset);
        proof {
            assert(views(normalized_asset_whitelist@) =~= before.push(asset@));
            assert(third.take(c + 1) =~= third.take(c as int).push(third[c as int]));
            assert(first + second + third.take(c + 1) =~= (first + second + third.take(
                c as int,
            )).push(third[c as int]));
        }
        c += 1;
    }
    proof {
        assert(third.take(sets.cw1155.len() as int) =~= third);
    }
    Ok(normalized_asset_whitelist)
}

/// Some asset is on both lists.
pub open spec fn asset_on_both(add: Seq<AssetInfoView>, remove: Seq<AssetInfoView>) -> bool {
    exists|i: int, j: int|
        0 <= i < add.len() && 0 <= j < remove.len() && same_asset(
            #[trigger] add[i],
            #[trigger] remove[j],
        )
}

/// Whether some asset is on both lists.
fn assets_intersect(a: &Vec<AssetInfo>, b: &Vec<AssetInfo>) -> (found: bool)
    ensures
        found == asset_on_both(views(a@), views(b@)),
{
    let mut i: usize = 0;
    while i < a.len()
        invariant
            i <= a.len(),
            forall|x: int, y: int|
                0 <= x < i && 0 <= y < b.len() ==> !same_asset(
                    #[trigger] views(a@)[x],
                    #[trigger] views(b@)[y],
                ),
        decreases a.len() - i,
    {
        let mut j: usize = 0;
        while j < b.len()
            invariant
                i < a.len(),
                j <= b.len(),
                forall|y: int|
                    0 <= y < j ==> !same_asset(views(a@)[i as int], #[trigger] views(b@)[y]),
            decreases b.len() - j,
        {
            if is_same_asset(&a[i], &b[j]) {
                proof {
                    assert(same_asset(views(a@)[i as int], views(b@)[j as int]));
                }
                return true;
            }
            j += 1;
        }
        i += 1;
    }
    false
}

/// What is wrong with a change of the asset whitelist, if anything: the
/// first fault of the list to add, else the first of the list to remove,
/// else an asset that is on both.
pub open spec fn asset_whitelist_fault(
    add: Seq<AssetInfoView>,
    remove: Seq<AssetInfoView>,
) -> Option<GovernanceErrorView> {
    if first_fault(asset_faults(add)) is Some {
        first_fault(asset_faults(add))
    } else if first_fault(asset_faults(remove)) is Some {
        first_fault(asset_faults(remove))
    } else if asset_on_both(add, remove) {
        Some(GovernanceErrorView::AssetPresentInBothAddAndRemove)
    } else {
        None
    }
}

/// Checks a change of the asset whitelist: on each list every address
/// accepted and no asset twice, and no asset on both.
pub fn validate_asset_whitelist_changes(add: &Vec<AssetInfo>, remove: &Vec<AssetInfo>) -> (r: Result<
    (),
    GovernanceControllerError,
>)
    ensures
        agrees(r, asset_whitelist_fault(views(add@), views(remove@))),
{
    match split_assets(add) {
        Err(e) => {
            return Err(e);
        },
        Ok(_) => {},
    }
    match split_assets(remove) {
        Err(e) => {
            return Err(e);
        },
        Ok(_) => {},
    }
    if assets_intersect(add, remove) {
        return Err(GovernanceControllerError::AssetPresentInBothAddAndRemove);
    }
    Ok(())
}

/// Whether `text` is the JSON of a message that the chain can carry out:
/// what `serde_json_wasm::from_str` makes of it as a `cosmwasm_std::CosmosMsg`.
pub uninterp spec fn parses_as_cosmos_msg(text: Seq<char>) -> bool;

/// Calls `serde_json_wasm::from_str` for a `cosmwasm_std::CosmosMsg` and says
/// whether it gave a message. Trusted: the outcome depends on the text alone.
#[verifier::external_body]
fn is_cosmos_msg(text: &str) -> (ok: bool)
    ensures
        ok == parses_as_cosmos_msg(text@),
{
    serde_json_wasm::from_str::<cosmwasm_std::CosmosMsg>(text).is_ok()
}

/// The verdict on one message of a proposal, given whether it could be read
/// as a message for the chain.
pub fn execute_msg_verdict(parsed: bool) -> (r: Result<(), GovernanceControllerError>)
    ensures
        r is Ok <==> parsed,
        r matches Err(e) ==> e@ == GovernanceErrorView::InvalidCosmosMessage,
{
    if parsed {
        Ok(())
    } else {
        Err(GovernanceControllerError::InvalidCosmosMessage)
    }
}

/// The faults of a list of messages, one by one: a text that cannot be read
/// as a message for the chain.
pub open spec fn execute_msg_faults(msgs: Seq<String>) -> Seq<Option<GovernanceErrorView>> {
    Seq::new(
        msgs.len(),
        |i: int|
            if parses_as_cosmos_msg(msgs[i]@) {
                None
            } else {
                Some(GovernanceErrorView::InvalidCosmosMessage)
            },
    )
}

/// Checks that each message of the proposal can be read as a message for the
/// chain.
pub fn validate_execute_msgs(msg: &ExecuteMsgsMsg) -> (r: Result<(), GovernanceControllerError>)
    ensures
        agrees(r, first_fault(execute_msg_faults(msg.msgs@))),
{
    let msgs = &msg.msgs;
    let ghost faults = execute_msg_faults(msgs@);
    let mut i: usize = 0;
    proof {
        assert(faults.take(0) =~= Seq::empty());
    }
    while i < msgs.len()
        invariant
            i <= msgs.len(),
            *msgs == msg.msgs,
            faults == execute_msg_faults(msgs@),
            first_fault(faults.take(i as int)) is None,
        decreases msgs.len() - i,
    {
        proof {
            lemma_first_fault_step(faults, i as int);
        }
        match execute_msg_verdict(is_cosmos_msg(msgs[i].as_str())) {
            Err(e) => {
                proof {
                    lemma_first_fault_stays(faults, i + 1);
                }
                return Err(e);
            },
            Ok(_) => {},
        }
        i += 1;
    }
    proof {
        assert(faults.take(msgs.len() as int) =~= faults);
    }
    Ok(())
}

/// What is wrong with one action of a proposal for an organization of the
/// given type that is governed by `config`, if anything. A change of the
/// governance configuration is judged by the configuration that it would
/// make.
pub open spec fn action_fault(config: GovConfig, dao_type: DaoType, action: ProposalAction) -> Option<
    GovernanceErrorView,
> {
    match action {
        ProposalAction::UpdateAssetWhitelist(msg) => asset_whitelist_fault(
            views(msg.add@),
            views(msg.remove@),
        ),
        ProposalAction::UpdateNftWhitelist(msg) => nft_whitelist_fault(
            views(msg.add@),
            views(msg.remove@),
        ),
        ProposalAction::UpgradeDao(_) => None,
        ProposalAction::ExecuteMsgs(msg) => first_fault(execute_msg_faults(msg.msgs@)),
        ProposalAction::ModifyMultisigMembership(msg) => multisig_membership_fault(
            dao_type,
            views(msg.edit_members@),
        ),
        ProposalAction::UpdateCouncil(msg) => council_fault(msg.dao_council),
        ProposalAction::DistributeFunds(msg) => first_fault(fund_faults(msg.funds@)),
        ProposalAction::UpdateGovConfig(msg) => gov_config_fault(
            dao_type,
            changed_gov_config(config, msg),
        ),
        ProposalAction::UpdateMetadata(_) => None,
        ProposalAction::RequestFundingFromDao(_) => None,
        ProposalAction::UpdateMinimumWeightForRewards(_) => None,
    }
}

/// The faults of the actions of a proposal, one by one.
pub open spec fn action_faults(
    config: GovConfig,
    dao_type: DaoType,
    actions: Seq<ProposalAction>,
) -> Seq<Option<GovernanceErrorView>> {
    Seq::new(actions.len(), |i: int| action_fault(config, dao_type, actions[i]))
}

/// Checks one action of a proposal.
pub fn validate_proposal_action(
    gov_config: &GovConfig,
    dao_type: DaoType,
    proposal_action: &ProposalAction,
) -> (r: Result<(), GovernanceControllerError>)
    ensures
        agrees(r, action_fault(*gov_config, dao_type, *proposal_action)),
{
    match proposal_action {
        ProposalAction::UpdateAssetWhitelist(msg) => validate_asset_whitelist_changes(
            &msg.add,
            &msg.remove,
        ),
        ProposalAction::UpdateNftWhitelist(msg) => validate_nft_whitelist_changes(
            &msg.add,
            &msg.remove,
        ),
        ProposalAction::UpgradeDao(msg) => validate_upgrade_dao(msg),
        ProposalAction::ExecuteMsgs(msg) => validate_execute_msgs(msg),
        ProposalAction::ModifyMultisigMembership(msg) => validate_modify_multisig_membership(
            dao_type,
            msg,
        ),
        ProposalAction::UpdateCouncil(msg) => check_dao_council(&msg.dao_council),
        ProposalAction::DistributeFunds(msg) => validate_distribute_funds(msg),
        ProposalAction::UpdateGovConfig(msg) => {
            let updated_gov_config = apply_gov_config_changes(*gov_config, msg);
            validate_dao_gov_config(&dao_type, &updated_gov_config)
        },
        ProposalAction::UpdateMetadata(_) => Ok(()),
        ProposalAction::RequestFundingFromDao(_) => Ok(()),
        ProposalAction::UpdateMinimumWeightForRewards(_) => Ok(()),
    }
}

/// Checks the actions of a proposal in order and names the first fault
/// found. `gov_config` is the configuration in force.
pub fn validate_proposal_actions(
    gov_config: &GovConfig,
    dao_type: DaoType,
    proposal_actions: &Vec<ProposalAction>,
) -> (r: Result<(), GovernanceControllerError>)
    ensures
        agrees(r, first_fault(action_faults(*gov_config, dao_type, proposal_actions@))),
{
    let ghost faults = action_faults(*gov_config, dao_type, proposal_actions@);
    let mut i: usize = 0;
    proof {
        assert(faults.take(0) =~= Seq::empty());
    }
    while i < proposal_actions.len()
        invariant
            i <= proposal_actions.len(),
            faults == action_faults(*gov_config, dao_type, proposal_actions@),
            first_fault(faults.take(i as int)) is None,
        decreases proposal_actions.len() - i,
    {
        proof {
            lemma_first_fault_step(faults, i as int);
        }
        match validate_proposal_action(gov_config, dao_type, &proposal_actions[i]) {
            Err(e) => {
                proof {
                    lemma_first_fault_stays(faults, i + 1);
                }
                return Err(e);
            },
            Ok(_) => {},
        }
        i += 1;
    }
    proof {
        assert(faults.take(proposal_actions.len() as int) =~= faults);
    }
    Ok(())
}

} // verus!
