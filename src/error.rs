use vstd::prelude::*;

verus! {

/// Why an operation on an identity, anchor, stream or chain was rejected.
#[derive(Debug, Clone, Copy, PartialEq, Eq, Structural)]
pub enum Error {
    /// The genesis card does not verify or is not marked as genesis.
    InvalidGenesis,
    /// A registry entry was offered to a disabled identity.
    Disabled,
    /// A registry entry is not signed by the current card's key.
    InvalidKeyIndex,
    /// A registry entry's signature does not verify.
    InvalidRegistry,
    /// A `prev` field does not match the tip it must extend.
    InvalidChain,
    /// A registry entry's type differs from the type of its chain.
    ChainTypeMismatch,
    /// A cancel was offered while an evolution is already under way.
    EvolveInProgress,
    /// A cancel's signature does not verify.
    InvalidCancel,
    /// No trust-line group of the current card matches the acting key.
    NoGroup,
    /// Only a master group may close an identity for good.
    MasterRequired,
    /// A renew issued on an enabled identity carries no key.
    MissingRenewKey,
    /// The last evolution is not a lone cancel waiting for a renew.
    InvalidRenewState,
    /// The identity was closed for good.
    ClosedPermanently,
    /// A renew's signature does not verify.
    InvalidRenew,
    /// An enabled identity cannot take a new card.
    EvolveEnabled,
    /// Only the first card of an identity may be a genesis card.
    EvolveToGenesis,
    /// There is no renew to evolve from.
    MissingRenew,
    /// The card's key is not the one the renew committed to.
    InvalidCardKey,
    /// The card's signature does not verify.
    InvalidCard,
    /// A block or stream does not extend the expected tip.
    InvalidStreamChain,
    /// A stream's genesis signature does not verify.
    InvalidGenesisSignature,
    /// A stream block's signature does not verify.
    InvalidBlockSignature,
    /// A stream appended to a chain carries no renew block.
    MissingStreamRenew,
    /// A stream's renew block carries no master key.
    MissingMasterKey,
    /// The master key is not a group of the previous stream.
    NoStreamGroup,
    /// The chain holds more streams than the keys lead back to.
    MissingStreamKey,
    /// The oldest stream of the chain still names a predecessor.
    InvalidChainEnd,
    /// The bytes do not hold an anchor.
    Decode,
}

impl Error {
    /// A human-readable description of the error.
    pub fn message(&self) -> &'static str {
        match self {
            Error::InvalidGenesis => "Invalid genesis card!",
            Error::Disabled => "Identity is disabled!",
            Error::InvalidKeyIndex => "Invalid key index!",
            Error::InvalidRegistry => "Invalid registry!",
            Error::InvalidChain => "Invalid chain!",
            Error::ChainTypeMismatch => "Invalid chain (dif type)!",
            Error::EvolveInProgress => "Evolve is already in progress!",
            Error::InvalidCancel => "Invalid cancel!",
            Error::NoGroup => "No group found to evolve!",
            Error::MasterRequired => "Only master groups can close permanently!",
            Error::MissingRenewKey => "Renew(cancel) must have a key!",
            Error::InvalidRenewState => "Identity in invalid state to perform a renew!",
            Error::ClosedPermanently => "Identity closed permanently!",
            Error::InvalidRenew => "Invalid renew!",
            Error::EvolveEnabled => "Cannot evolve an enabled identity!",
            Error::EvolveToGenesis => "Cannot evolve to a genesis card!",
            Error::MissingRenew => "A renew must exist to evolve!",
            Error::InvalidCardKey => "The card key is not valid!",
            Error::InvalidCard => "Invalid card!",
            Error::InvalidStreamChain => "Invalid stream chain!",
            Error::InvalidGenesisSignature => "Invalid genesis signature!",
            Error::InvalidBlockSignature => "Invalid block signature!",
            Error::MissingStreamRenew => "Stream requires a renew block!",
            Error::MissingMasterKey => "Renew block requires a master public key!",
            Error::NoStreamGroup => "No group found on previous stream!",
            Error::MissingStreamKey => "Chain contains more streams without a stream key!",
            Error::InvalidChainEnd => "Chain with invalid end!",
            Error::Decode => "Unable to deserialize anchor!",
        }
    }
}

} // verus!
