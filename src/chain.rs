use vstd::prelude::*;
use crate::address::{AliasId, NftId};
use crate::input::InputSigningData;
use crate::output::{AliasTransition, Output};
use crate::requirement::{Error, FoundryId, Requirement};
use crate::selection::{has_match, is_first, select_one, Additions, InputSelection};

verus! {

/// The identity of an output that keeps it across transactions.
#[derive(Clone, Copy, Debug, PartialEq, Eq, Structural)]
pub enum ChainId {
    Alias(AliasId),
    Nft(NftId),
    Foundry(FoundryId),
}

/// The input's output is the alias, NFT or foundry that `chain` identifies.
pub open spec fn holds_chain(input: InputSigningData, chain: ChainId) -> bool {
    match chain {
        ChainId::Alias(id) => input.output matches Output::Alias(o) && o.alias_id == id,
        ChainId::Nft(id) => input.output matches Output::Nft(o) && o.nft_id == id,
        ChainId::Foundry(id) => input.output matches Output::Foundry(o)
            && o.serial_number == id.serial_number
            && o.unlock_conditions.immutable_alias_address == Some(id.alias_id),
    }
}

fn is_chain(input: &InputSigningData, chain: &ChainId) -> (r: bool)
    ensures
        r == holds_chain(*input, *chain),
{
    match (&input.output, chain) {
        (Output::Alias(o), ChainId::Alias(id)) => o.alias_id == *id,
        (Output::Nft(o), ChainId::Nft(id)) => o.nft_id == *id,
        (Output::Foundry(o), ChainId::Foundry(id)) => {
            o.serial_number == id.serial_number && match o.unlock_conditions.immutable_alias_address {
                Some(a) => a == id.alias_id,
                None => false,
            }
        },
        _ => false,
    }
}

impl InputSelection {
    /// Makes sure the output that `chain` identifies is selected: nothing is
    /// taken if it already is; otherwise the first available input holding it
    /// is taken, tagged with `tr`; otherwise the run fails naming `err`.
    fn select_chain(&mut self, chain: ChainId, tr: Option<AliasTransition>, err: Requirement) -> (r: Result<Additions, Error>)
        ensures
            select_one(*old(self), *final(self), |x: InputSigningData| holds_chain(x, chain), tr, err, r),
    {
        let mut i: usize = 0;
        while i < self.selected_inputs.len()
            invariant
                *self == *old(self),
                0 <= i <= self.selected_inputs@.len(),
                forall|j: int| 0 <= j < i ==> !holds_chain(#[trigger] self.selected_inputs@[j], chain),
            decreases self.selected_inputs@.len() - i,
        {
            if is_chain(&self.selected_inputs[i], &chain) {
                let ghost p = |x: InputSigningData| holds_chain(x, chain);
                assert(p(self.selected_inputs@[i as int]));
                assert(has_match(old(self).selected_inputs@, p));
                return Ok(Vec::new());
            }
            i += 1;
        }
        let mut k: usize = 0;
        while k < self.available_inputs.len()
            invariant
                *self == *old(self),
                0 <= k <= self.available_inputs@.len(),
                forall|j: int| 0 <= j < self.selected_inputs@.len() ==> !holds_chain(#[trigger] self.selected_inputs@[j], chain),
                forall|j: int| 0 <= j < k ==> !holds_chain(#[trigger] self.available_inputs@[j], chain),
            decreases self.available_inputs@.len() - k,
        {
            if is_chain(&self.available_inputs[k], &chain) {
                let ghost p = |x: InputSigningData| holds_chain(x, chain);
                assert(p(self.available_inputs@[k as int]));
                assert(!has_match(old(self).selected_inputs@, p));
                assert(has_match(old(self).available_inputs@, p));
                assert(is_first(old(self).available_inputs@, k as int, p));
                let input = self.available_inputs.swap_remove(k);
                let mut adds: Additions = Vec::new();
                adds.push((input, tr));
                assert(adds@ == seq![(old(self).available_inputs@[k as int], tr)]);
                return Ok(adds);
            }
            k += 1;
        }
        let ghost p = |x: InputSigningData| holds_chain(x, chain);
        assert(!has_match(old(self).selected_inputs@, p));
        assert(!has_match(old(self).available_inputs@, p));
        Err(Error::UnfulfillableRequirement(err))
    }

    /// Fulfills an alias requirement by selecting the alias, to be transitioned as `transition`.
    pub fn fulfill_alias_requirement(&mut self, alias_id: AliasId, transition: AliasTransition) -> (r: Result<Additions, Error>)
        ensures
            select_one(
                *old(self),
                *final(self),
                |x: InputSigningData| holds_chain(x, ChainId::Alias(alias_id)),
                Some(transition),
                Requirement::Alias(alias_id, transition),
                r,
            ),
    {
        self.select_chain(ChainId::Alias(alias_id), Some(transition), Requirement::Alias(alias_id, transition))
    }

    /// Fulfills an NFT requirement by selecting the NFT.
    pub fn fulfill_nft_requirement(&mut self, nft_id: NftId) -> (r: Result<Additions, Error>)
        ensures
            select_one(
                *old(self),
                *final(self),
                |x: InputSigningData| holds_chain(x, ChainId::Nft(nft_id)),
                None,
                Requirement::Nft(nft_id),
                r,
            ),
    {
        self.select_chain(ChainId::Nft(nft_id), None, Requirement::Nft(nft_id))
    }

    /// Fulfills a foundry requirement by selecting the foundry.
    pub fn fulfill_foundry_requirement(&mut self, foundry_id: FoundryId) -> (r: Result<Additions, Error>)
        ensures
            select_one(
                *old(self),
                *final(self),
                |x: InputSigningData| holds_chain(x, ChainId::Foundry(foundry_id)),
                None,
                Requirement::Foundry(foundry_id),
                r,
            ),
    {
        self.select_chain(ChainId::Foundry(foundry_id), None, Requirement::Foundry(foundry_id))
    }
}

} // verus!
