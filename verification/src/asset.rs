//! Addresses and asset identities as they arrive in messages, and the asset
//! identities that the ledger keys its books by.

use vstd::prelude::*;
use crate::error::DistributorError;
use crate::model::AssetIdView;

verus! {

/// An address as it was submitted, with the verdict of the host's address
/// check on it. The library cannot run that check itself: whoever builds the
/// value records the verdict.
#[derive(Clone, Debug, PartialEq, Eq)]
pub struct Addr {
    pub text: String,
    pub valid: bool,
}

/// An `Addr` as a mathematical value.
pub struct AddrView {
    pub text: Seq<char>,
    pub valid: bool,
}

impl View for Addr {
    type V = AddrView;

    open spec fn view(&self) -> AddrView {
        AddrView { text: self.text@, valid: self.valid }
    }
}

impl Addr {
    /// `text` with the verdict `valid`.
    pub fn new(text: String, valid: bool) -> (a: Addr)
        ensures
            a.text == text,
            a.valid == valid,
    {
        Addr { text, valid }
    }

    pub fn as_str(&self) -> (s: &str)
        ensures
            s@ == self.text@,
    {
        self.text.as_str()
    }

    pub fn is_valid(&self) -> (b: bool)
        ensures
            b == self.valid,
    {
        self.valid
    }

    /// A copy with the same text and verdict.
    pub fn duplicate(&self) -> (a: Addr)
        ensures
            a@ == self@,
    {
        Addr { text: self.text.clone(), valid: self.valid }
    }
}

/// The identity of an asset that can be distributed.
#[derive(Clone, Debug, PartialEq, Eq)]
pub enum AssetId {
    Native(String),
    Cw20(String),
}

impl View for AssetId {
    type V = AssetIdView;

    open spec fn view(&self) -> AssetIdView {
        match self {
            AssetId::Native(denom) => AssetIdView::Native(denom@),
            AssetId::Cw20(contract) => AssetIdView::Cw20(contract@),
        }
    }
}

impl AssetId {
    pub fn native(denom: &str) -> (a: AssetId)
        ensures
            a@ == AssetIdView::Native(denom@),
    {
        AssetId::Native(denom.to_owned())
    }

    pub fn cw20(contract: &str) -> (a: AssetId)
        ensures
            a@ == AssetIdView::Cw20(contract@),
    {
        AssetId::Cw20(contract.to_owned())
    }

    /// Whether both name the same asset: the same kind and the same identifier.
    pub fn same_as(&self, other: &AssetId) -> (b: bool)
        ensures
            b == (self@ == other@),
    {
        match (self, other) {
            (AssetId::Native(a), AssetId::Native(b)) => *a == *b,
            (AssetId::Cw20(a), AssetId::Cw20(b)) => *a == *b,
            _ => false,
        }
    }

    /// A copy that names the same asset.
    pub fn duplicate(&self) -> (a: AssetId)
        ensures
            a@ == self@,
    {
        match self {
            AssetId::Native(denom) => AssetId::Native(denom.clone()),
            AssetId::Cw20(contract) => AssetId::Cw20(contract.clone()),
        }
    }
}

/// An asset as a message names it. Only the first two kinds can be
/// distributed.
#[derive(Clone, Debug, PartialEq, Eq)]
pub enum AssetInfo {
    Native(String),
    Cw20(Addr),
    Cw1155(Addr, String),
}

/// An `AssetInfo` as a mathematical value.
pub enum AssetInfoView {
    Native(Seq<char>),
    Cw20(AddrView),
    Cw1155(AddrView, Seq<char>),
}

impl View for AssetInfo {
    type V = AssetInfoView;

    open spec fn view(&self) -> AssetInfoView {
        match self {
            AssetInfo::Native(denom) => AssetInfoView::Native(denom@),
            AssetInfo::Cw20(addr) => AssetInfoView::Cw20(addr@),
            AssetInfo::Cw1155(addr, id) => AssetInfoView::Cw1155(addr@, id@),
        }
    }
}

impl AssetInfoView {
    /// The identity under which the ledger keeps this asset, or why it keeps
    /// none: a kind that cannot be distributed, or a token contract whose
    /// address the host rejected.
    pub open spec fn resolve(self) -> Result<AssetIdView, DistributorError> {
        match self {
            AssetInfoView::Native(denom) => Ok(AssetIdView::Native(denom)),
            AssetInfoView::Cw20(addr) => if addr.valid {
                Ok(AssetIdView::Cw20(addr.text))
            } else {
                Err(DistributorError::InvalidAssetIdentity)
            },
            AssetInfoView::Cw1155(_, _) => Err(DistributorError::UnsupportedAssetKind),
        }
    }
}

impl AssetInfo {
    pub fn native(denom: &str) -> (a: AssetInfo)
        ensures
            a@ == AssetInfoView::Native(denom@),
    {
        AssetInfo::Native(denom.to_owned())
    }

    pub fn cw20(contract: Addr) -> (a: AssetInfo)
        ensures
            a@ == AssetInfoView::Cw20(contract@),
    {
        AssetInfo::Cw20(contract)
    }

    pub fn cw1155(contract: Addr, token_id: &str) -> (a: AssetInfo)
        ensures
            a@ == AssetInfoView::Cw1155(contract@, token_id@),
    {
        AssetInfo::Cw1155(contract, token_id.to_owned())
    }

    /// The identity under which the ledger keeps this asset.
    pub fn resolve(&self) -> (r: Result<AssetId, DistributorError>)
        ensures
            match self@.resolve() {
                Ok(id) => r matches Ok(a) && a@ == id,
                Err(e) => r == Err::<AssetId, DistributorError>(e),
            },
    {
        match self {
            AssetInfo::Native(denom) => Ok(AssetId::Native(denom.clone())),
            AssetInfo::Cw20(addr) => {
                if addr.valid {
                    Ok(AssetId::Cw20(addr.text.clone()))
                } else {
                    Err(DistributorError::InvalidAssetIdentity)
                }
            },
            AssetInfo::Cw1155(_, _) => Err(DistributorError::UnsupportedAssetKind),
        }
    }
}

} // verus!
