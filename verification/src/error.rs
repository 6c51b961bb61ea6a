//! The errors of the ledger.

use vstd::prelude::*;

verus! {

/// Why an operation on the ledger was refused. A refused operation changes
/// nothing.
#[derive(Clone, Copy, Debug, PartialEq, Eq, Structural)]
pub enum DistributorError {
    /// A distribution found no eligible weight to distribute over.
    NoEligibleRecipients,
    /// The host rejected a member's address.
    InvalidMember,
    /// The host rejected the address of a token contract.
    InvalidAssetIdentity,
    /// A batch of weight changes names one member twice.
    DuplicateMemberInBatch,
    /// The asset is of a kind that cannot be distributed.
    UnsupportedAssetKind,
    /// A number left the range of 128 bits.
    Overflow,
}

impl DistributorError {
    /// The error in words.
    pub open spec fn message_spec(self) -> Seq<char> {
        match self {
            DistributorError::NoEligibleRecipients => "no eligible recipients: the total eligible weight is zero"@,
            DistributorError::InvalidMember => "invalid member address"@,
            DistributorError::InvalidAssetIdentity => "invalid asset identity"@,
            DistributorError::DuplicateMemberInBatch => "duplicate member in batch"@,
            DistributorError::UnsupportedAssetKind => "unsupported asset kind"@,
            DistributorError::Overflow => "arithmetic overflow"@,
        }
    }

    /// The error in words.
    pub fn message(&self) -> (s: String)
        ensures
            s@ == self.message_spec(),
    {
        match self {
            DistributorError::NoEligibleRecipients => "no eligible recipients: the total eligible weight is zero".to_owned(),
            DistributorError::InvalidMember => "invalid member address".to_owned(),
            DistributorError::InvalidAssetIdentity => "invalid asset identity".to_owned(),
            DistributorError::DuplicateMemberInBatch => "duplicate member in batch".to_owned(),
            DistributorError::UnsupportedAssetKind => "unsupported asset kind".to_owned(),
            DistributorError::Overflow => "arithmetic overflow".to_owned(),
        }
    }
}

} // verus!
