use vstd::prelude::*;
use crate::output::Output;

verus! {

/// The 256-bit identifier of a transaction, as its high and low halves.
#[derive(Clone, Copy, Debug, PartialEq, Eq, Structural)]
pub struct TransactionId(pub u128, pub u128);

/// The identifier of an output: the transaction that created it and its index there.
#[derive(Clone, Copy, Debug, PartialEq, Eq, Structural)]
pub struct OutputId {
    pub transaction_id: TransactionId,
    pub index: u16,
}

/// A candidate input: an output, its identifier, and the key derivation
/// chain that a signer later needs to unlock it.
#[derive(Debug)]
pub struct InputSigningData {
    pub output: Output,
    pub output_id: OutputId,
    pub chain: Option<Vec<u32>>,
}

} // verus!
