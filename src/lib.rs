//! Input selection for a UTXO ledger client: picks, from a pool of spendable
//! outputs, the inputs that a transaction needs so that every ownership and
//! amount requirement it carries is met, or names the first one that cannot be.
//!
//! - `address`, `output`, `input`: the ledger's addresses and outputs, and
//!   who must authorize spending an output at a given time.
//! - `requirement`, `selection`: what a transaction may require, and the two
//!   disjoint pools of one selection run.
//! - `chain`, `alias`, `sender`, `amount`: one handler per requirement kind.
//! - `orchestrator`: runs a list of requirements and assembles the result.
//! - `laws`: properties of the handlers, proved from their contracts.

mod address;
mod alias;
mod amount;
mod chain;
mod input;
mod laws;
mod orchestrator;
mod output;
mod requirement;
mod selection;
mod sender;

pub use address::{Address, AliasId, Ed25519Address, NftId};
pub use alias::{alias_transition_of, is_alias_transition, transition_in};
pub use amount::{
    held, lemma_total_append, lemma_total_prefix, native_tokens_of, quantity_outcome, token_amount,
    took_first, total, untagged, Quantity,
};
pub use chain::{holds_chain, ChainId};
pub use input::{InputSigningData, OutputId, TransactionId};
pub use laws::{
    already_fulfilled, lemma_alias_control_selection, lemma_fulfilled_requirement_is_idempotent,
    lemma_indirection_failure_names_sender, lemma_pools_stay_disjoint,
    lemma_prefers_basic_outputs, lemma_unfulfillable_sender,
};
pub use orchestrator::{
    address_satisfied, inputs_of, is_prefix, lemma_satisfied_push, moved, requirement_outcome,
    applied, run_from, satisfied, step, tagged, Selection,
};
pub use output::{
    locked_address, AliasOutput, AliasTransition, BasicOutput, ExpirationUnlockCondition,
    Features, FoundryOutput, NativeToken, NftOutput, Output, StorageDepositReturnUnlockCondition,
    TokenId, TreasuryOutput, UnlockConditions,
};
pub use requirement::{Error, FoundryId, Requirement};
pub use selection::{
    all_addressable, has_match, ids_of, ids_unique, is_first, kept, lemma_move_input,
    same_but_available, select_one, swap_removed, took, Additions, InputSelection,
};
pub use sender::{
    available_has_ed25519_address, available_unlocks, basic_unlocks, ed25519_outcome,
    other_unlocks, selected_has_ed25519_address, selected_unlocks, sender_outcome,
};
