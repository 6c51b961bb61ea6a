//! What the governance controller's proposals are made of.

use vstd::prelude::*;
use crate::api::UserWeight;
use crate::asset::{Addr, AssetInfo};
use crate::decimal::Decimal;

verus! {

/// How membership of the organization is held.
#[derive(Clone, Copy, Debug, PartialEq, Eq, Structural)]
pub enum DaoType {
    Token,
    Nft,
    Multisig,
}

impl DaoType {
    /// The name of the type.
    pub open spec fn name_spec(self) -> Seq<char> {
        match self {
            DaoType::Token => "Token"@,
            DaoType::Nft => "Nft"@,
            DaoType::Multisig => "Multisig"@,
        }
    }

    /// The name of the type.
    pub fn name(&self) -> (s: String)
        ensures
            s@ == self.name_spec(),
    {
        match self {
            DaoType::Token => "Token".to_owned(),
            DaoType::Nft => "Nft".to_owned(),
            DaoType::Multisig => "Multisig".to_owned(),
        }
    }
}

/// A span of blocks or of seconds.
#[derive(Clone, Copy, Debug, PartialEq, Eq, Structural)]
pub enum Duration {
    Height(u64),
    Time(u64),
}

/// Either a new value or a sign that the old one stays.
#[derive(Clone, Copy, Debug, PartialEq, Eq)]
pub enum ModifyValue<T> {
    Change(T),
    NoChange,
}

/// How proposals are decided.
#[derive(Clone, Copy, Debug, PartialEq, Eq)]
pub struct GovConfig {
    /// The share of the votes available that must be cast.
    pub quorum: Decimal,
    /// The share of the votes cast that must be in favour.
    pub threshold: Decimal,
    /// The share of the votes cast that vetoes a proposal.
    pub veto_threshold: Option<Decimal>,
    /// For how long a proposal is open to votes, in seconds.
    pub vote_duration: u64,
    /// For how long a stake stays locked once its release is asked for.
    pub unlocking_period: Duration,
    /// What a proposer must deposit, if anything.
    pub minimum_deposit: Option<u128>,
    pub allow_early_proposal_execution: bool,
}

/// What came with a proposal.
#[derive(Clone, Debug, PartialEq, Eq)]
pub struct ProposalDeposit {
    pub depositor: Addr,
    pub amount: u128,
}

/// The kinds of action that a proposal can hold.
#[derive(Clone, Copy, Debug, PartialEq, Eq, Structural)]
pub enum ProposalActionType {
    UpdateMetadata,
    UpdateGovConfig,
    UpdateCouncil,
    UpdateAssetWhitelist,
    UpdateNftWhitelist,
    RequestFundingFromDao,
    UpgradeDao,
    ExecuteMsgs,
    ModifyMultisigMembership,
    DistributeFunds,
    UpdateMinimumWeightForRewards,
}

/// A council as it is asked for: its members are yet to be checked.
#[derive(Clone, Debug, PartialEq, Eq)]
pub struct DaoCouncilSpec {
    pub members: Vec<Addr>,
    pub quorum: Decimal,
    pub threshold: Decimal,
    /// The kinds of action that the council may propose; where none are given,
    /// it may only propose to upgrade.
    pub allowed_proposal_action_types: Option<Vec<ProposalActionType>>,
}

/// A council that passed validation.
#[derive(Clone, Debug, PartialEq, Eq)]
pub struct DaoCouncil {
    pub members: Vec<Addr>,
    pub allowed_proposal_action_types: Vec<ProposalActionType>,
    pub quorum: Decimal,
    pub threshold: Decimal,
}

#[derive(Clone, Debug, PartialEq, Eq)]
pub struct UpdateMetadataMsg {
    pub name: ModifyValue<String>,
    pub description: ModifyValue<Option<String>>,
    /// The address of the logo, if there is to be one.
    pub logo: ModifyValue<Option<String>>,
    pub github_username: ModifyValue<Option<String>>,
    pub discord_username: ModifyValue<Option<String>>,
    pub twitter_username: ModifyValue<Option<String>>,
    pub telegram_username: ModifyValue<Option<String>>,
}

#[derive(Clone, Copy, Debug, PartialEq, Eq)]
pub struct UpdateGovConfigMsg {
    pub quorum: ModifyValue<Decimal>,
    pub threshold: ModifyValue<Decimal>,
    pub veto_threshold: ModifyValue<Option<Decimal>>,
    pub voting_duration: ModifyValue<u64>,
    pub unlocking_period: ModifyValue<Duration>,
    pub minimum_deposit: ModifyValue<Option<u128>>,
    pub allow_early_proposal_execution: ModifyValue<bool>,
}

#[derive(Clone, Debug, PartialEq, Eq)]
pub struct UpdateCouncilMsg {
    pub dao_council: Option<DaoCouncilSpec>,
}

#[derive(Clone, Debug, PartialEq, Eq)]
pub struct UpdateAssetWhitelistMsg {
    pub add: Vec<AssetInfo>,
    pub remove: Vec<AssetInfo>,
}

#[derive(Clone, Debug, PartialEq, Eq)]
pub struct UpdateNftWhitelistMsg {
    pub add: Vec<Addr>,
    pub remove: Vec<Addr>,
}

/// An amount of an asset.
#[derive(Clone, Debug, PartialEq, Eq)]
pub struct Asset {
    pub info: AssetInfo,
    pub amount: u128,
}

#[derive(Clone, Debug, PartialEq, Eq)]
pub struct RequestFundingFromDaoMsg {
    pub recipient: String,
    pub assets: Vec<Asset>,
}

#[derive(Clone, Debug, PartialEq, Eq)]
pub struct UpgradeDaoMsg {
    pub new_dao_code_id: u64,
    pub migrate_msg: Vec<u8>,
}

/// Messages for the organization to send, each one written as JSON.
#[derive(Clone, Debug, PartialEq, Eq)]
pub struct ExecuteMsgsMsg {
    pub action_type: String,
    pub msgs: Vec<String>,
}

#[derive(Clone, Debug, PartialEq, Eq)]
pub struct ModifyMultisigMembershipMsg {
    /// The members to change, each with its new weight.
    pub edit_members: Vec<UserWeight>,
}

#[derive(Clone, Debug, PartialEq, Eq)]
pub struct DistributeFundsMsg {
    pub funds: Vec<Asset>,
}

#[derive(Clone, Copy, Debug, PartialEq, Eq)]
pub struct UpdateMinimumWeightForRewardsMsg {
    pub minimum_weight_for_rewards: u128,
}

/// One thing that a proposal asks for.
#[derive(Clone, Debug, PartialEq, Eq)]
pub enum ProposalAction {
    UpdateMetadata(UpdateMetadataMsg),
    UpdateGovConfig(UpdateGovConfigMsg),
    UpdateCouncil(UpdateCouncilMsg),
    UpdateAssetWhitelist(UpdateAssetWhitelistMsg),
    UpdateNftWhitelist(UpdateNftWhitelistMsg),
    RequestFundingFromDao(RequestFundingFromDaoMsg),
    UpgradeDao(UpgradeDaoMsg),
    ExecuteMsgs(ExecuteMsgsMsg),
    ModifyMultisigMembership(ModifyMultisigMembershipMsg),
    DistributeFunds(DistributeFundsMsg),
    UpdateMinimumWeightForRewards(UpdateMinimumWeightForRewardsMsg),
}

/// Why the governance controller refuses something.
#[derive(Clone, Debug, PartialEq, Eq)]
pub enum GovernanceControllerError {
    /// The host rejected an address.
    InvalidAddress { addr: String },
    /// Something that the organization cannot do, in words.
    Std { msg: String },
    ZeroVoteDuration,
    VoteDurationLongerThanUnstaking,
    InvalidArgument { msg: String },
    MinimumDepositNotAllowed,
    InsufficientProposalDeposit { required_amount: u128 },
    AssetPresentInBothAddAndRemove,
    DuplicateAssetFound,
    DuplicateNftFound,
    NftPresentInBothAddAndRemove,
    InvalidCosmosMessage,
    UnsupportedOperationForDaoType { dao_type: String },
    DuplicateMultisigMemberWeightEdit,
    DuplicateCouncilMember { member: String },
    UnsupportedCouncilProposalAction { action: ProposalActionType },
}

/// A `GovernanceControllerError` as a mathematical value.
pub enum GovernanceErrorView {
    InvalidAddress { addr: Seq<char> },
    Std { msg: Seq<char> },
    ZeroVoteDuration,
    VoteDurationLongerThanUnstaking,
    InvalidArgument { msg: Seq<char> },
    MinimumDepositNotAllowed,
    InsufficientProposalDeposit { required_amount: u128 },
    AssetPresentInBothAddAndRemove,
    DuplicateAssetFound,
    DuplicateNftFound,
    NftPresentInBothAddAndRemove,
    InvalidCosmosMessage,
    UnsupportedOperationForDaoType { dao_type: Seq<char> },
    DuplicateMultisigMemberWeightEdit,
    DuplicateCouncilMember { member: Seq<char> },
    UnsupportedCouncilProposalAction { action: ProposalActionType },
}

impl View for GovernanceControllerError {
    type V = GovernanceErrorView;

    open spec fn view(&self) -> GovernanceErrorView {
        match self {
            GovernanceControllerError::InvalidAddress { addr } => GovernanceErrorView::InvalidAddress {
                addr: addr@,
            },
            GovernanceControllerError::Std { msg } => GovernanceErrorView::Std { msg: msg@ },
            GovernanceControllerError::ZeroVoteDuration => GovernanceErrorView::ZeroVoteDuration,
            GovernanceControllerError::VoteDurationLongerThanUnstaking => GovernanceErrorView::VoteDurationLongerThanUnstaking,
            GovernanceControllerError::InvalidArgument { msg } => GovernanceErrorView::InvalidArgument {
                msg: msg@,
            },
            GovernanceControllerError::MinimumDepositNotAllowed => GovernanceErrorView::MinimumDepositNotAllowed,
            GovernanceControllerError::InsufficientProposalDeposit { required_amount } => GovernanceErrorView::InsufficientProposalDeposit {
                required_amount: *required_amount,
            },
            GovernanceControllerError::AssetPresentInBothAddAndRemove => GovernanceErrorView::AssetPresentInBothAddAndRemove,
            GovernanceControllerError::DuplicateAssetFound => GovernanceErrorView::DuplicateAssetFound,
            GovernanceControllerError::DuplicateNftFound => GovernanceErrorView::DuplicateNftFound,
            GovernanceControllerError::NftPresentInBothAddAndRemove => GovernanceErrorView::NftPresentInBothAddAndRemove,
            GovernanceControllerError::InvalidCosmosMessage => GovernanceErrorView::InvalidCosmosMessage,
            GovernanceControllerError::UnsupportedOperationForDaoType { dao_type } => GovernanceErrorView::UnsupportedOperationForDaoType {
                dao_type: dao_type@,
            },
            GovernanceControllerError::DuplicateMultisigMemberWeightEdit => GovernanceErrorView::DuplicateMultisigMemberWeightEdit,
            GovernanceControllerError::DuplicateCouncilMember { member } => GovernanceErrorView::DuplicateCouncilMember {
                member: member@,
            },
            GovernanceControllerError::UnsupportedCouncilProposalAction { action } => GovernanceErrorView::UnsupportedCouncilProposalAction {
                action: *action,
            },
        }
    }
}

} // verus!
