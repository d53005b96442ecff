use vstd::prelude::*;
use crate::address::{Address, AliasId, NftId};
use crate::output::{AliasTransition, TokenId};

verus! {

/// A foundry is identified by the alias that controls it and its serial number there.
#[derive(Clone, Copy, Debug, PartialEq, Eq, Structural)]
pub struct FoundryId {
    pub alias_id: AliasId,
    pub serial_number: u32,
}

/// A condition that the finished transaction must satisfy.
#[derive(Clone, Copy, Debug, PartialEq, Eq, Structural)]
pub enum Requirement {
    /// Some input must unlock the address, so that it may appear as a sender.
    Sender(Address),
    /// Some input must unlock the address, so that it may appear as an issuer.
    Issuer(Address),
    /// The alias must be consumed, under the given transition.
    Alias(AliasId, AliasTransition),
    /// The NFT must be consumed.
    Nft(NftId),
    /// The foundry must be consumed.
    Foundry(FoundryId),
    /// The selected inputs must hold at least this base-token amount.
    Amount(u64),
    /// The selected inputs must hold at least this amount of the native token.
    NativeToken(TokenId, u128),
}

/// Why a selection run failed.
#[derive(Clone, Copy, Debug, PartialEq, Eq, Structural)]
pub enum Error {
    /// No input in either pool can satisfy the requirement.
    UnfulfillableRequirement(Requirement),
}

} // verus!
