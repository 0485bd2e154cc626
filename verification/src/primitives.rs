//! The plain values that every part of the engine speaks in.

use vstd::prelude::*;

verus! {

/// An account's identity. Nothing is read from it but equality.
pub type AccountId = u64;

/// An amount of some asset.
pub type Balance = u128;

/// A block height. Heights never go down.
pub type BlockNumber = u64;

/// An asset's symbol, as the number the chain gives it.
pub type Token = u32;

/// Time-integrated balance: units held times blocks elapsed.
pub type VoteWeight = u64;

/// The chain's own asset. Rewards are paid in it. It can be registered as
/// a staking target like any other asset, but it cannot be claimed against,
/// and a move of it settles no weight.
pub const NATIVE_TOKEN: Token = 0;

/// The bridged bitcoin asset, the one asset whose confirmation delay is known.
pub const X_BTC: Token = 1;

/// What an account can hold a weighted position against.
#[derive(Clone, Copy, Debug, PartialEq, Eq, Structural)]
pub enum StakeTarget {
    /// A validator, by its account.
    Validator(AccountId),
    /// A tradable asset that stands in as a staking target for its holders.
    AssetTarget(Token),
}

/// Why an operation was rejected.
#[derive(Clone, Copy, Debug, PartialEq, Eq, Structural)]
pub enum Error {
    /// The target is no registered asset target, or its confirmation delay is
    /// not known.
    NotSupported,
    /// The asset is already registered as a staking target.
    AlreadyRegistered,
    /// The validator is already registered.
    DuplicateValidator,
    /// The validator is not registered.
    UnknownValidator,
    /// The target has accrued no weight, so there is nothing to share by.
    ZeroWeight,
    /// An account would give away more than it holds.
    InsufficientBalance,
    /// A sum would leave the range of its type.
    Overflow,
    /// The current block lies before a record's last update.
    ClockWentBackwards,
    /// A legacy pot names a validator for which no reward pot is known.
    MissingRewardPot,
}

/// The four families that rejections fall into.
#[derive(Clone, Copy, Debug, PartialEq, Eq, Structural)]
pub enum ErrorKind {
    /// The request names something that cannot be served.
    Validation,
    /// A number would not fit.
    Arithmetic,
    /// The state contradicts itself.
    Consistency,
    /// A collaborator could not supply a value.
    ExternalDependency,
}

impl Error {
    /// The family of this rejection.
    pub open spec fn spec_kind(self) -> ErrorKind {
        match self {
            Error::NotSupported => ErrorKind::Validation,
            Error::AlreadyRegistered => ErrorKind::Validation,
            Error::DuplicateValidator => ErrorKind::Validation,
            Error::UnknownValidator => ErrorKind::Validation,
            Error::ZeroWeight => ErrorKind::Validation,
            Error::InsufficientBalance => ErrorKind::Validation,
            Error::Overflow => ErrorKind::Arithmetic,
            Error::ClockWentBackwards => ErrorKind::Consistency,
            Error::MissingRewardPot => ErrorKind::ExternalDependency,
        }
    }

    /// The family of this rejection.
    pub fn kind(&self) -> (k: ErrorKind)
        ensures
            k == self.spec_kind(),
    {
        match self {
            Error::NotSupported => ErrorKind::Validation,
            Error::AlreadyRegistered => ErrorKind::Validation,
            Error::DuplicateValidator => ErrorKind::Validation,
            Error::UnknownValidator => ErrorKind::Validation,
            Error::ZeroWeight => ErrorKind::Validation,
            Error::InsufficientBalance => ErrorKind::Validation,
            Error::Overflow => ErrorKind::Arithmetic,
            Error::ClockWentBackwards => ErrorKind::Consistency,
            Error::MissingRewardPot => ErrorKind::ExternalDependency,
        }
    }
}

} // verus!
