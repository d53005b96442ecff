use vstd::prelude::*;
use crate::address::Address;
use crate::alias::{alias_transition_of, is_alias_transition};
use crate::chain::{holds_chain, ChainId};
use crate::input::InputSigningData;
use crate::output::{AliasTransition, Output};
use crate::requirement::{Error, Requirement};
use crate::selection::{has_match, is_first, kept, select_one, took, Additions, InputSelection};

verus! {

/// A selected input unlocks `address` at time `t`: the address it requires,
/// under the transition that the outputs being built impose on it, is `address`.
pub open spec fn selected_unlocks(input: InputSigningData, outputs: Seq<Output>, address: Address, t: u32) -> bool {
    input.output.required_address(t, alias_transition_of(input, outputs)) == address
}

/// Whether an available input can unlock `address` at time `t`, and, for an
/// alias, the transition that doing so forces: State when `address` is its
/// state controller, else Governance when it is its governor.
pub open spec fn available_unlocks(input: InputSigningData, address: Address, t: u32) -> (bool, Option<AliasTransition>) {
    match input.output {
        Output::Alias(o) => if o.unlock_conditions.state_controller_address == Some(address) {
            (true, Some(AliasTransition::State))
        } else if o.unlock_conditions.governor_address == Some(address) {
            (true, Some(AliasTransition::Governance))
        } else {
            (false, None)
        },
        _ => (input.output.required_address(t, None) == address, None),
    }
}

/// A basic available input that unlocks `address`.
pub open spec fn basic_unlocks(address: Address, t: u32) -> spec_fn(InputSigningData) -> bool {
    |x: InputSigningData| x.output is Basic && available_unlocks(x, address, t).0
}

/// A non-basic available input that unlocks `address`.
pub open spec fn other_unlocks(address: Address, t: u32) -> spec_fn(InputSigningData) -> bool {
    |x: InputSigningData| !(x.output is Basic) && available_unlocks(x, address, t).0
}

/// The outcome of fulfilling a key-backed address requirement: nothing is
/// taken if a selected input already unlocks the address; otherwise the first
/// basic available input that unlocks it is taken, with no transition;
/// otherwise the first other available input that does, with the transition
/// that unlocking forces; otherwise the run fails naming `err`.
pub open spec fn ed25519_outcome(
    old: InputSelection,
    new: InputSelection,
    address: Address,
    err: Requirement,
    r: Result<Additions, Error>,
) -> bool {
    let t = old.timestamp;
    let avail = old.available_inputs@;
    if has_match(old.selected_inputs@, |x: InputSigningData| selected_unlocks(x, old.outputs@, address, t)) {
        r is Ok && kept(old, new, r->Ok_0@)
    } else if has_match(avail, basic_unlocks(address, t)) {
        r is Ok && exists|i: int| is_first(avail, i, basic_unlocks(address, t)) && took(old, new, i, r->Ok_0@, None)
    } else if has_match(avail, other_unlocks(address, t)) {
        r is Ok && exists|i: int|
            is_first(avail, i, other_unlocks(address, t))
            && took(old, new, i, r->Ok_0@, available_unlocks(avail[i], address, t).1)
    } else {
        r == Err::<Additions, Error>(Error::UnfulfillableRequirement(err)) && kept(old, new, seq![])
    }
}

/// The outcome of making sure some input unlocks `address`, failing with
/// `err`: a key-backed address by a signature, an alias address by a state
/// transition of the alias, an NFT address by consuming the NFT.
pub open spec fn sender_outcome(
    old: InputSelection,
    new: InputSelection,
    address: Address,
    err: Requirement,
    r: Result<Additions, Error>,
) -> bool {
    match address {
        Address::Ed25519(_) => ed25519_outcome(old, new, address, err, r),
        Address::Alias(id) => select_one(
            old,
            new,
            |x: InputSigningData| holds_chain(x, ChainId::Alias(id)),
            Some(AliasTransition::State),
            err,
            r,
        ),
        Address::Nft(id) => select_one(old, new, |x: InputSigningData| holds_chain(x, ChainId::Nft(id)), None, err, r),
    }
}

/// Checks if a selected input unlocks a given address.
pub fn selected_has_ed25519_address(input: &InputSigningData, outputs: &[Output], address: &Address, timestamp: u32) -> (r: bool)
    requires
        input.output.addressable(),
    ensures
        r == selected_unlocks(*input, outputs@, *address, timestamp),
{
    let alias_transition = is_alias_transition(input, outputs);
    let required_address = input.output.required_and_unlocked_address(timestamp, alias_transition).0;
    required_address == *address
}

/// Checks if an available input can unlock a given address; for an alias,
/// also tells whether it must be state or governance transitioned to do so.
pub fn available_has_ed25519_address(input: &InputSigningData, address: &Address, timestamp: u32) -> (r: (bool, Option<AliasTransition>))
    requires
        input.output.addressable(),
    ensures
        r == available_unlocks(*input, *address, timestamp),
{
    match &input.output {
        Output::Alias(o) => {
            if o.unlock_conditions.state_controller_address.unwrap() == *address {
                return (true, Some(AliasTransition::State));
            }
            if o.unlock_conditions.governor_address.unwrap() == *address {
                return (true, Some(AliasTransition::Governance));
            }
            (false, None)
        },
        _ => {
            let required_address = input.output.required_and_unlocked_address(timestamp, None).0;
            (required_address == *address, None)
        },
    }
}

impl InputSelection {
    /// Fulfills a key-backed sender requirement by selecting an available
    /// input that unlocks its address, preferring basic outputs, which force
    /// no transition.
    pub fn fulfill_ed25519_address_requirement(&mut self, address: Address) -> (r: Result<Additions, Error>)
        requires
            old(self).wf(),
        ensures
            ed25519_outcome(*old(self), *final(self), address, Requirement::Sender(address), r),
    {
        // Checks if the requirement is already fulfilled.
        let mut i: usize = 0;
        while i < self.selected_inputs.len()
            invariant
                *self == *old(self),
                self.wf(),
                0 <= i <= self.selected_inputs@.len(),
                forall|j: int| 0 <= j < i ==> !selected_unlocks(#[trigger] self.selected_inputs@[j], self.outputs@, address, self.timestamp),
            decreases self.selected_inputs@.len() - i,
        {
            assert(self.pool()[i as int] == self.selected_inputs@[i as int]);
            if selected_has_ed25519_address(&self.selected_inputs[i], self.outputs.as_slice(), &address, self.timestamp) {
                let ghost sel_p = |x: InputSigningData| selected_unlocks(x, self.outputs@, address, self.timestamp);
                assert(sel_p(self.selected_inputs@[i as int]));
                assert(has_match(self.selected_inputs@, sel_p));
                return Ok(Vec::new());
            }
            i += 1;
        }
        let ghost sel_p = |x: InputSigningData| selected_unlocks(x, self.outputs@, address, self.timestamp);
        assert(!has_match(self.selected_inputs@, sel_p));
        let n = self.selected_inputs.len();
        // Checks if the requirement can be fulfilled by a basic output.
        let mut k: usize = 0;
        while k < self.available_inputs.len()
            invariant
                *self == *old(self),
                self.wf(),
                n == self.selected_inputs@.len(),
                !has_match(self.selected_inputs@, |x: InputSigningData| selected_unlocks(x, self.outputs@, address, self.timestamp)),
                0 <= k <= self.available_inputs@.len(),
                forall|j: int| 0 <= j < k ==> !basic_unlocks(address, self.timestamp)(#[trigger] self.available_inputs@[j]),
            decreases self.available_inputs@.len() - k,
        {
            assert(self.pool()[n + k] == self.available_inputs@[k as int]);
            if self.available_inputs[k].output.is_basic()
                && available_has_ed25519_address(&self.available_inputs[k], &address, self.timestamp).0 {
                let ghost basic_p = basic_unlocks(address, self.timestamp);
                assert(basic_p(self.available_inputs@[k as int]));
                assert(has_match(self.available_inputs@, basic_p));
                assert(is_first(self.available_inputs@, k as int, basic_p));
                let input = self.available_inputs.swap_remove(k);
                let mut adds: Additions = Vec::new();
                adds.push((input, None));
                assert(adds@ == seq![(old(self).available_inputs@[k as int], None::<AliasTransition>)]);
                return Ok(adds);
            }
            k += 1;
        }
        assert(!has_match(self.available_inputs@, basic_unlocks(address, self.timestamp)));
        // Otherwise, checks if the requirement can be fulfilled by a non-basic output.
        let mut k: usize = 0;
        while k < self.available_inputs.len()
            invariant
                *self == *old(self),
                self.wf(),
                n == self.selected_inputs@.len(),
                !has_match(self.selected_inputs@, |x: InputSigningData| selected_unlocks(x, self.outputs@, address, self.timestamp)),
                !has_match(self.available_inputs@, basic_unlocks(address, self.timestamp)),
                0 <= k <= self.available_inputs@.len(),
                forall|j: int| 0 <= j < k ==> !other_unlocks(address, self.timestamp)(#[trigger] self.available_inputs@[j]),
            decreases self.available_inputs@.len() - k,
        {
            assert(self.pool()[n + k] == self.available_inputs@[k as int]);
            if !self.available_inputs[k].output.is_basic() {
                let (found, alias_transition) = available_has_ed25519_address(&self.available_inputs[k], &address, self.timestamp);
                if found {
                    let ghost other_p = other_unlocks(address, self.timestamp);
                    assert(other_p(self.available_inputs@[k as int]));
                    assert(has_match(self.available_inputs@, other_p));
                    assert(is_first(self.available_inputs@, k as int, other_p));
                    let input = self.available_inputs.swap_remove(k);
                    let mut adds: Additions = Vec::new();
                    adds.push((input, alias_transition));
                    assert(adds@ == seq![(old(self).available_inputs@[k as int], alias_transition)]);
                    return Ok(adds);
                }
            }
            k += 1;
        }
        assert(!has_match(self.available_inputs@, other_unlocks(address, self.timestamp)));
        Err(Error::UnfulfillableRequirement(Requirement::Sender(address)))
    }

    /// Fulfills a sender requirement by selecting an available input that
    /// unlocks its address. An alias or NFT address is unlocked by selecting
    /// that alias (to be state transitioned) or NFT; when that cannot be
    /// done, the failure names this sender requirement.
    pub fn fulfill_sender_requirement(&mut self, address: Address) -> (r: Result<Additions, Error>)
        requires
            old(self).wf(),
        ensures
            sender_outcome(*old(self), *final(self), address, Requirement::Sender(address), r),
    {
        match address {
            Address::Ed25519(_) => self.fulfill_ed25519_address_requirement(address),
            Address::Alias(alias_id) => {
                // A state transition is required to unlock the alias address.
                match self.fulfill_alias_requirement(alias_id, AliasTransition::State) {
                    Ok(res) => Ok(res),
                    Err(Error::UnfulfillableRequirement(Requirement::Alias(_, _))) => {
                        Err(Error::UnfulfillableRequirement(Requirement::Sender(address)))
                    },
                    Err(e) => Err(e),
                }
            },
            Address::Nft(nft_id) => {
                match self.fulfill_nft_requirement(nft_id) {
                    Ok(res) => Ok(res),
                    Err(Error::UnfulfillableRequirement(Requirement::Nft(_))) => {
                        Err(Error::UnfulfillableRequirement(Requirement::Sender(address)))
                    },
                    Err(e) => Err(e),
                }
            },
        }
    }

    /// Fulfills an issuer requirement as the sender requirement on the same
    /// address; a failure names this issuer requirement.
    pub fn fulfill_issuer_requirement(&mut self, address: Address) -> (r: Result<Additions, Error>)
        requires
            old(self).wf(),
        ensures
            sender_outcome(*old(self), *final(self), address, Requirement::Issuer(address), r),
    {
        match self.fulfill_sender_requirement(address) {
            Ok(res) => Ok(res),
            Err(Error::UnfulfillableRequirement(Requirement::Sender(_))) => {
                Err(Error::UnfulfillableRequirement(Requirement::Issuer(address)))
            },
            Err(e) => Err(e),
        }
    }
}

} // verus!
