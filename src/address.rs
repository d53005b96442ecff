use vstd::prelude::*;

verus! {

/// The hash of an Ed25519 public key, as its high and low 128 bits.
#[derive(Clone, Copy, Debug, PartialEq, Eq, Structural)]
pub struct Ed25519Address(pub u128, pub u128);

/// The 256-bit identifier of an alias output, as its high and low halves.
#[derive(Clone, Copy, Debug, PartialEq, Eq, Structural)]
pub struct AliasId(pub u128, pub u128);

/// The 256-bit identifier of an NFT output, as its high and low halves.
#[derive(Clone, Copy, Debug, PartialEq, Eq, Structural)]
pub struct NftId(pub u128, pub u128);

/// An address: backed by a key, or owned by an alias or an NFT.
#[derive(Clone, Copy, Debug, PartialEq, Eq, Structural)]
pub enum Address {
    Ed25519(Ed25519Address),
    Alias(AliasId),
    Nft(NftId),
}

} // verus!
