use vstd::prelude::*;
use crate::address::Address;
use crate::chain::{holds_chain, ChainId};
use crate::input::InputSigningData;
use crate::output::{AliasTransition, Output};
use crate::requirement::{Error, Requirement};
use crate::selection::{has_match, is_first, swap_removed, took, Additions, InputSelection};
use crate::sender::{available_unlocks, basic_unlocks, other_unlocks, selected_unlocks, sender_outcome};
use crate::orchestrator::{inputs_of, lemma_moved_pool, lemma_outcome, requirement_outcome};
use crate::selection::{ids_of, ids_unique};
use crate::amount::{total, Quantity};

verus! {

/// The check a handler makes before taking anything: some selected input
/// already meets the requirement.
pub open spec fn already_fulfilled(s: InputSelection, req: Requirement) -> bool {
    let sel = s.selected_inputs@;
    match req {
        Requirement::Sender(a) | Requirement::Issuer(a) => match a {
            Address::Ed25519(_) => has_match(sel, |x: InputSigningData| selected_unlocks(x, s.outputs@, a, s.timestamp)),
            Address::Alias(id) => has_match(sel, |x: InputSigningData| holds_chain(x, ChainId::Alias(id))),
            Address::Nft(id) => has_match(sel, |x: InputSigningData| holds_chain(x, ChainId::Nft(id))),
        },
        Requirement::Alias(id, _) => has_match(sel, |x: InputSigningData| holds_chain(x, ChainId::Alias(id))),
        Requirement::Nft(id) => has_match(sel, |x: InputSigningData| holds_chain(x, ChainId::Nft(id))),
        Requirement::Foundry(id) => has_match(sel, |x: InputSigningData| holds_chain(x, ChainId::Foundry(id))),
        Requirement::Amount(target) => total(sel, Quantity::Base) >= target,
        Requirement::NativeToken(id, target) => total(sel, Quantity::Token(id)) >= target,
    }
}

/// Idempotence: when a selected input already meets a requirement,
/// fulfilling it adds nothing and leaves both pools as they were.
pub proof fn lemma_fulfilled_requirement_is_idempotent(
    old: InputSelection,
    new: InputSelection,
    req: Requirement,
    r: Result<Additions, Error>,
)
    requires
        requirement_outcome(old, new, req, r),
        already_fulfilled(old, req),
    ensures
        r is Ok,
        r->Ok_0@.len() == 0,
        new.selected_inputs@ == old.selected_inputs@,
        new.available_inputs@ == old.available_inputs@,
{
}

/// Disjointness: once what a handler took joins the selected pool, no
/// identifier is in both pools, and together they hold the same identifiers
/// as before; a failing handler changes neither pool.
pub proof fn lemma_pools_stay_disjoint(
    old: InputSelection,
    new: InputSelection,
    req: Requirement,
    r: Result<Additions, Error>,
)
    requires
        old.wf(),
        requirement_outcome(old, new, req, r),
    ensures
        r is Err ==> new.selected_inputs@ == old.selected_inputs@ && new.available_inputs@ == old.available_inputs@,
        r is Ok ==> {
            let pools = old.selected_inputs@ + inputs_of(r->Ok_0@) + new.available_inputs@;
            &&& ids_unique(pools)
            &&& ids_of(pools) == ids_of(old.pool())
        },
{
    lemma_outcome(old, new, req, r);
    if r is Ok {
        lemma_moved_pool(old, new, r->Ok_0@);
    }
}

/// Preference: when a basic available input unlocks a key-backed address
/// that no selected input unlocks, a basic input is taken, and no alias
/// transition comes with it, whatever other inputs could unlock it.
pub proof fn lemma_prefers_basic_outputs(
    old: InputSelection,
    new: InputSelection,
    address: Address,
    r: Result<Additions, Error>,
)
    requires
        address is Ed25519,
        sender_outcome(old, new, address, Requirement::Sender(address), r),
        !already_fulfilled(old, Requirement::Sender(address)),
        has_match(old.available_inputs@, basic_unlocks(address, old.timestamp)),
    ensures
        r is Ok,
        r->Ok_0@.len() == 1,
        r->Ok_0@[0].0.output is Basic,
        r->Ok_0@[0].1 == None::<AliasTransition>,
{
    let avail = old.available_inputs@;
    let i = choose|i: int| is_first(avail, i, basic_unlocks(address, old.timestamp)) && took(old, new, i, r->Ok_0@, None);
    assert(basic_unlocks(address, old.timestamp)(avail[i]));
}

/// Alias control: when the only input that can unlock a key-backed address
/// is an available alias controlled by it, that alias is taken, tagged with
/// a State transition if the address is its state controller, and with a
/// Governance transition if it is only its governor.
pub proof fn lemma_alias_control_selection(
    old: InputSelection,
    new: InputSelection,
    address: Address,
    i: int,
    r: Result<Additions, Error>,
)
    requires
        address is Ed25519,
        sender_outcome(old, new, address, Requirement::Sender(address), r),
        !already_fulfilled(old, Requirement::Sender(address)),
        0 <= i < old.available_inputs@.len(),
        old.available_inputs@[i].output matches Output::Alias(o)
            && (o.unlock_conditions.state_controller_address == Some(address)
            || o.unlock_conditions.governor_address == Some(address)),
        forall|j: int|
            0 <= j < old.available_inputs@.len() && j != i
                ==> !(#[trigger] available_unlocks(old.available_inputs@[j], address, old.timestamp)).0,
    ensures
        r is Ok,
        new.available_inputs@ == swap_removed(old.available_inputs@, i),
        old.available_inputs@[i].output->Alias_0.unlock_conditions.state_controller_address == Some(address)
            ==> r->Ok_0@ == seq![(old.available_inputs@[i], Some(AliasTransition::State))],
        old.available_inputs@[i].output->Alias_0.unlock_conditions.state_controller_address != Some(address)
            ==> r->Ok_0@ == seq![(old.available_inputs@[i], Some(AliasTransition::Governance))],
{
    let avail = old.available_inputs@;
    let t = old.timestamp;
    assert(other_unlocks(address, t)(avail[i]));
    assert(!has_match(avail, basic_unlocks(address, t))) by {
        if has_match(avail, basic_unlocks(address, t)) {
            let j = choose|j: int| 0 <= j < avail.len() && #[trigger] basic_unlocks(address, t)(avail[j]);
            assert(available_unlocks(avail[j], address, t).0);
        }
    }
    let k = choose|k: int|
        is_first(avail, k, other_unlocks(address, t))
        && took(old, new, k, r->Ok_0@, available_unlocks(avail[k], address, t).1);
    assert(available_unlocks(avail[k], address, t).0);
}

/// Relabelling: a sender requirement on an alias or NFT address whose alias
/// or NFT is in neither pool fails naming that sender requirement, not the
/// alias or NFT requirement it went through.
pub proof fn lemma_indirection_failure_names_sender(
    old: InputSelection,
    new: InputSelection,
    address: Address,
    r: Result<Additions, Error>,
)
    requires
        sender_outcome(old, new, address, Requirement::Sender(address), r),
        address matches Address::Alias(id) ==> forall|k: int|
            0 <= k < old.pool().len() ==> !holds_chain(#[trigger] old.pool()[k], ChainId::Alias(id)),
        address matches Address::Nft(id) ==> forall|k: int|
            0 <= k < old.pool().len() ==> !holds_chain(#[trigger] old.pool()[k], ChainId::Nft(id)),
        !(address is Ed25519),
    ensures
        r == Err::<Additions, Error>(Error::UnfulfillableRequirement(Requirement::Sender(address))),
{
    let sel = old.selected_inputs@;
    let avail = old.available_inputs@;
    let n = sel.len() as int;
    let c = match address { Address::Alias(id) => ChainId::Alias(id), Address::Nft(id) => ChainId::Nft(id), _ => arbitrary() };
    let p = |x: InputSigningData| holds_chain(x, c);
    if has_match(sel, p) {
        let k = choose|k: int| 0 <= k < sel.len() && #[trigger] p(sel[k]);
        assert(old.pool()[k] == sel[k]);
    }
    if has_match(avail, p) {
        let k = choose|k: int| 0 <= k < avail.len() && #[trigger] p(avail[k]);
        assert(old.pool()[n + k] == avail[k]);
    }
}

/// Baseline: a sender requirement on a key-backed address that no input of
/// either pool can unlock fails naming that address, and changes nothing.
pub proof fn lemma_unfulfillable_sender(
    old: InputSelection,
    new: InputSelection,
    address: Address,
    r: Result<Additions, Error>,
)
    requires
        address is Ed25519,
        sender_outcome(old, new, address, Requirement::Sender(address), r),
        forall|k: int|
            0 <= k < old.selected_inputs@.len()
                ==> !selected_unlocks(#[trigger] old.selected_inputs@[k], old.outputs@, address, old.timestamp),
        forall|k: int|
            0 <= k < old.available_inputs@.len()
                ==> !(#[trigger] available_unlocks(old.available_inputs@[k], address, old.timestamp)).0,
    ensures
        r == Err::<Additions, Error>(Error::UnfulfillableRequirement(Requirement::Sender(address))),
        new.selected_inputs@ == old.selected_inputs@,
        new.available_inputs@ == old.available_inputs@,
{
    let t = old.timestamp;
    let avail = old.available_inputs@;
    if has_match(avail, basic_unlocks(address, t)) {
        let j = choose|j: int| 0 <= j < avail.len() && #[trigger] basic_unlocks(address, t)(avail[j]);
        assert(available_unlocks(avail[j], address, t).0);
    }
    if has_match(avail, other_unlocks(address, t)) {
        let j = choose|j: int| 0 <= j < avail.len() && #[trigger] other_unlocks(address, t)(avail[j]);
        assert(available_unlocks(avail[j], address, t).0);
    }
}

} // verus!
