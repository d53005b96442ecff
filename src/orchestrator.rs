use vstd::prelude::*;
use crate::address::Address;
use crate::chain::{holds_chain, ChainId};
use crate::input::{InputSigningData, OutputId};
use crate::output::{AliasTransition, Output};
use crate::requirement::{Error, Requirement};
use crate::selection::{
    all_addressable, has_match, ids_of, ids_unique, is_first, kept, lemma_move_input, select_one,
    swap_removed, took, Additions, InputSelection,
};
use crate::amount::{lemma_total_append, quantity_outcome, took_first, total, Quantity};
use crate::laws::{already_fulfilled, lemma_fulfilled_requirement_is_idempotent};
use crate::sender::{
    available_unlocks, basic_unlocks, other_unlocks, selected_unlocks, sender_outcome,
};

verus! {

/// What one selection run hands to the transaction builder: the selected
/// inputs, and the alias transitions that selecting them forced.
pub struct Selection {
    pub inputs: Vec<InputSigningData>,
    pub alias_transitions: Vec<(OutputId, AliasTransition)>,
}

/// The outcome of fulfilling `req`, as its handler states it.
pub open spec fn requirement_outcome(
    old: InputSelection,
    new: InputSelection,
    req: Requirement,
    r: Result<Additions, Error>,
) -> bool {
    match req {
        Requirement::Sender(a) => sender_outcome(old, new, a, req, r),
        Requirement::Issuer(a) => sender_outcome(old, new, a, req, r),
        Requirement::Alias(id, tr) => select_one(
            old,
            new,
            |x: InputSigningData| holds_chain(x, ChainId::Alias(id)),
            Some(tr),
            req,
            r,
        ),
        Requirement::Nft(id) => select_one(old, new, |x: InputSigningData| holds_chain(x, ChainId::Nft(id)), None, req, r),
        Requirement::Foundry(id) => select_one(
            old,
            new,
            |x: InputSigningData| holds_chain(x, ChainId::Foundry(id)),
            None,
            req,
            r,
        ),
        Requirement::Amount(target) => quantity_outcome(old, new, Quantity::Base, target as u128, req, r),
        Requirement::NativeToken(id, target) => quantity_outcome(old, new, Quantity::Token(id), target, req, r),
    }
}

/// The inputs that a handler's additions carry.
pub open spec fn inputs_of(adds: Seq<(InputSigningData, Option<AliasTransition>)>) -> Seq<InputSigningData> {
    adds.map_values(|p: (InputSigningData, Option<AliasTransition>)| p.0)
}

/// The inputs a handler added came out of the available pool: it took
/// nothing, one input by swap-removal, or a prefix of the pool.
pub open spec fn moved(old: InputSelection, new: InputSelection, adds: Seq<(InputSigningData, Option<AliasTransition>)>) -> bool {
    ||| kept(old, new, adds)
    ||| exists|i: int| took(old, new, i, adds, adds[0].1)
    ||| exists|c: int| took_first(old, new, c, adds)
}

/// Some input of `selected` unlocks `address` at time `t`: a key-backed one
/// under the transition the outputs impose or through a controller of an
/// alias; an alias or NFT address by holding that alias or NFT.
pub open spec fn address_satisfied(selected: Seq<InputSigningData>, outputs: Seq<Output>, t: u32, address: Address) -> bool {
    match address {
        Address::Ed25519(_) => has_match(
            selected,
            |x: InputSigningData| selected_unlocks(x, outputs, address, t) || available_unlocks(x, address, t).0,
        ),
        Address::Alias(id) => has_match(selected, |x: InputSigningData| holds_chain(x, ChainId::Alias(id))),
        Address::Nft(id) => has_match(selected, |x: InputSigningData| holds_chain(x, ChainId::Nft(id))),
    }
}

/// The inputs of `selected` meet `req`.
pub open spec fn satisfied(selected: Seq<InputSigningData>, outputs: Seq<Output>, t: u32, req: Requirement) -> bool {
    match req {
        Requirement::Sender(a) => address_satisfied(selected, outputs, t, a),
        Requirement::Issuer(a) => address_satisfied(selected, outputs, t, a),
        Requirement::Alias(id, _) => has_match(selected, |x: InputSigningData| holds_chain(x, ChainId::Alias(id))),
        Requirement::Nft(id) => has_match(selected, |x: InputSigningData| holds_chain(x, ChainId::Nft(id))),
        Requirement::Foundry(id) => has_match(selected, |x: InputSigningData| holds_chain(x, ChainId::Foundry(id))),
        Requirement::Amount(target) => total(selected, Quantity::Base) >= target,
        Requirement::NativeToken(id, target) => total(selected, Quantity::Token(id)) >= target,
    }
}

/// The alias transitions that additions record, in order: one for each
/// input tagged with a transition.
pub open spec fn tagged(adds: Seq<(InputSigningData, Option<AliasTransition>)>) -> Seq<(OutputId, AliasTransition)>
    decreases adds.len(),
{
    if adds.len() == 0 {
        seq![]
    } else {
        tagged(adds.drop_last()) + match adds.last().1 {
            Some(t) => seq![(adds.last().0.output_id, t)],
            None => seq![],
        }
    }
}

/// `after` is `mid` with the additions moved into its selected pool, in
/// order, and the transitions they carry recorded.
pub open spec fn applied(
    mid: InputSelection,
    adds: Seq<(InputSigningData, Option<AliasTransition>)>,
    after: InputSelection,
) -> bool {
    &&& after.selected_inputs@ == mid.selected_inputs@ + inputs_of(adds)
    &&& after.available_inputs@ == mid.available_inputs@
    &&& after.outputs@ == mid.outputs@
    &&& after.timestamp == mid.timestamp
    &&& after.alias_transitions@ == mid.alias_transitions@ + tagged(adds)
}

/// One step of a run: the handler of `req` succeeds on `before`, and what it
/// took is moved into the selected pool, giving `after`.
pub open spec fn step(before: InputSelection, req: Requirement, after: InputSelection) -> bool {
    exists|mid: InputSelection, adds: Additions|
        #[trigger] requirement_outcome(before, mid, req, Ok::<Additions, Error>(adds)) && applied(mid, adds@, after)
}

/// A run of `reqs` from `start`: `trace` holds the state before each of the
/// first `n` requirements and the state after them, each reached from the one
/// before by a step. With `Ok`, every requirement was fulfilled and the run
/// ends in that last state; with `Err`, the handler of requirement `n` failed
/// on it with that error, leaving `last`.
pub open spec fn run_from(
    start: InputSelection,
    reqs: Seq<Requirement>,
    trace: Seq<InputSelection>,
    n: int,
    last: InputSelection,
    outcome: Result<(), Error>,
) -> bool {
    &&& 0 <= n <= reqs.len()
    &&& trace.len() == n + 1
    &&& trace[0] == start
    &&& forall|j: int| 0 <= j < n ==> #[trigger] step(trace[j], reqs[j], trace[j + 1])
    &&& match outcome {
        Ok(_) => n == reqs.len() && last == trace[n],
        Err(e) => n < reqs.len() && requirement_outcome(trace[n], last, reqs[n], Err::<Additions, Error>(e)),
    }
}

proof fn lemma_tagged_append(
    a: Seq<(InputSigningData, Option<AliasTransition>)>,
    b: Seq<(InputSigningData, Option<AliasTransition>)>,
)
    ensures
        tagged(a + b) == tagged(a) + tagged(b),
    decreases b.len(),
{
    if b.len() == 0 {
        assert(a + b =~= a);
        assert(tagged(a) + tagged(b) =~= tagged(a));
    } else {
        lemma_tagged_append(a, b.drop_last());
        assert((a + b).drop_last() =~= a + b.drop_last());
        assert((a + b).last() == b.last());
        let last_tag = match b.last().1 {
            Some(t) => seq![(b.last().0.output_id, t)],
            None => seq![],
        };
        assert(tagged(a) + tagged(b.drop_last()) + last_tag =~= tagged(a) + (tagged(b.drop_last()) + last_tag));
    }
}

/// `pre` is a prefix of `s`.
pub open spec fn is_prefix<T>(pre: Seq<T>, s: Seq<T>) -> bool {
    pre.len() <= s.len() && s.subrange(0, pre.len() as int) == pre
}

proof fn lemma_has_match_push(s: Seq<InputSigningData>, x: InputSigningData, p: spec_fn(InputSigningData) -> bool)
    requires
        has_match(s, p) || p(x),
    ensures
        has_match(s.push(x), p),
{
    if has_match(s, p) {
        let i = choose|i: int| 0 <= i < s.len() && #[trigger] p(s[i]);
        assert(s.push(x)[i] == s[i]);
    } else {
        assert(s.push(x)[s.len() as int] == x);
    }
}

proof fn lemma_has_match_weaken(s: Seq<InputSigningData>, p: spec_fn(InputSigningData) -> bool, q: spec_fn(InputSigningData) -> bool)
    requires
        has_match(s, p),
        forall|x: InputSigningData| #[trigger] p(x) ==> q(x),
    ensures
        has_match(s, q),
{
    let i = choose|i: int| 0 <= i < s.len() && #[trigger] p(s[i]);
    assert(q(s[i]));
}

/// Adding an input to a selection keeps every requirement it met.
pub proof fn lemma_satisfied_push(
    selected: Seq<InputSigningData>,
    x: InputSigningData,
    outputs: Seq<Output>,
    t: u32,
    req: Requirement,
)
    requires
        satisfied(selected, outputs, t, req),
    ensures
        satisfied(selected.push(x), outputs, t, req),
{
    match req {
        Requirement::Sender(a) | Requirement::Issuer(a) => match a {
            Address::Ed25519(_) => lemma_has_match_push(
                selected,
                x,
                |y: InputSigningData| selected_unlocks(y, outputs, a, t) || available_unlocks(y, a, t).0,
            ),
            Address::Alias(id) => lemma_has_match_push(selected, x, |y: InputSigningData| holds_chain(y, ChainId::Alias(id))),
            Address::Nft(id) => lemma_has_match_push(selected, x, |y: InputSigningData| holds_chain(y, ChainId::Nft(id))),
        },
        Requirement::Alias(id, _) => lemma_has_match_push(selected, x, |y: InputSigningData| holds_chain(y, ChainId::Alias(id))),
        Requirement::Nft(id) => lemma_has_match_push(selected, x, |y: InputSigningData| holds_chain(y, ChainId::Nft(id))),
        Requirement::Foundry(id) => lemma_has_match_push(selected, x, |y: InputSigningData| holds_chain(y, ChainId::Foundry(id))),
        Requirement::Amount(_) | Requirement::NativeToken(_, _) => {
            assert(selected.push(x).drop_last() =~= selected);
        },
    }
}

proof fn lemma_chain_outcome(
    old: InputSelection,
    new: InputSelection,
    c: ChainId,
    tr: Option<AliasTransition>,
    err: Requirement,
    r: Result<Additions, Error>,
)
    requires
        select_one(old, new, |x: InputSigningData| holds_chain(x, c), tr, err, r),
    ensures
        r is Ok ==> {
            let adds = r->Ok_0@;
            ||| kept(old, new, adds) && has_match(old.selected_inputs@, |x: InputSigningData| holds_chain(x, c))
            ||| exists|i: int|
                took(old, new, i, adds, adds[0].1)
                && has_match(old.selected_inputs@.push(adds[0].0), |x: InputSigningData| holds_chain(x, c))
        },
{
    let p = |x: InputSigningData| holds_chain(x, c);
    let sel = old.selected_inputs@;
    let avail = old.available_inputs@;
    if r is Ok && !has_match(sel, p) {
        let adds = r->Ok_0@;
        let i = choose|i: int| is_first(avail, i, p) && took(old, new, i, adds, tr);
        assert(adds[0] == (avail[i], tr));
        assert(p(avail[i]));
        lemma_has_match_push(sel, avail[i], p);
        assert(took(old, new, i, adds, adds[0].1));
    }
}

/// A handler of one input fails only naming its requirement and touching
/// nothing; it succeeds either taking nothing, when the selection already
/// meets the requirement, or taking one available input that meets it.
proof fn lemma_single_outcome(old: InputSelection, new: InputSelection, req: Requirement, r: Result<Additions, Error>)
    requires
        requirement_outcome(old, new, req, r),
        !(req is Amount),
        !(req is NativeToken),
    ensures
        r is Err ==> r == Err::<Additions, Error>(Error::UnfulfillableRequirement(req)) && kept(old, new, seq![]),
        r is Ok ==> {
            let adds = r->Ok_0@;
            ||| kept(old, new, adds) && satisfied(old.selected_inputs@, old.outputs@, old.timestamp, req)
            ||| exists|i: int|
                took(old, new, i, adds, adds[0].1)
                && satisfied(old.selected_inputs@.push(adds[0].0), old.outputs@, old.timestamp, req)
        },
{
    let outputs = old.outputs@;
    let t = old.timestamp;
    let sel = old.selected_inputs@;
    let avail = old.available_inputs@;
    let is_key = match req {
        Requirement::Sender(Address::Ed25519(_)) | Requirement::Issuer(Address::Ed25519(_)) => true,
        _ => false,
    };
    if is_key {
        let a = match req { Requirement::Sender(a) | Requirement::Issuer(a) => a, _ => arbitrary() };
        let q = |y: InputSigningData| selected_unlocks(y, outputs, a, t) || available_unlocks(y, a, t).0;
        if r is Ok {
            let adds = r->Ok_0@;
            if has_match(sel, |x: InputSigningData| selected_unlocks(x, outputs, a, t)) {
                lemma_has_match_weaken(sel, |x: InputSigningData| selected_unlocks(x, outputs, a, t), q);
            } else if has_match(avail, basic_unlocks(a, t)) {
                let i = choose|i: int| is_first(avail, i, basic_unlocks(a, t)) && took(old, new, i, adds, None);
                assert(basic_unlocks(a, t)(avail[i]));
                assert(q(avail[i]));
                lemma_has_match_push(sel, avail[i], q);
                assert(adds[0] == (avail[i], None::<AliasTransition>));
                assert(took(old, new, i, adds, adds[0].1));
            } else {
                let i = choose|i: int|
                    is_first(avail, i, other_unlocks(a, t))
                    && took(old, new, i, adds, available_unlocks(avail[i], a, t).1);
                assert(other_unlocks(a, t)(avail[i]));
                assert(q(avail[i]));
                lemma_has_match_push(sel, avail[i], q);
                assert(adds[0] == (avail[i], available_unlocks(avail[i], a, t).1));
                assert(took(old, new, i, adds, adds[0].1));
            }
        }
    } else {
        match req {
            Requirement::Sender(Address::Alias(id)) | Requirement::Issuer(Address::Alias(id)) =>
                lemma_chain_outcome(old, new, ChainId::Alias(id), Some(AliasTransition::State), req, r),
            Requirement::Sender(Address::Nft(id)) | Requirement::Issuer(Address::Nft(id)) =>
                lemma_chain_outcome(old, new, ChainId::Nft(id), None, req, r),
            Requirement::Alias(id, tr) => lemma_chain_outcome(old, new, ChainId::Alias(id), Some(tr), req, r),
            Requirement::Nft(id) => lemma_chain_outcome(old, new, ChainId::Nft(id), None, req, r),
            Requirement::Foundry(id) => lemma_chain_outcome(old, new, ChainId::Foundry(id), None, req, r),
            _ => {},
        }
    }
}

/// A handler fails only naming its requirement and touching nothing; when it
/// succeeds, what it added came out of the available pool, and the selected
/// inputs with those additions meet the requirement.
pub(crate) proof fn lemma_outcome(old: InputSelection, new: InputSelection, req: Requirement, r: Result<Additions, Error>)
    requires
        requirement_outcome(old, new, req, r),
    ensures
        r is Err ==> r == Err::<Additions, Error>(Error::UnfulfillableRequirement(req)) && kept(old, new, seq![]),
        r is Ok ==> moved(old, new, r->Ok_0@)
            && satisfied(old.selected_inputs@ + inputs_of(r->Ok_0@), old.outputs@, old.timestamp, req),
{
    let sel = old.selected_inputs@;
    let avail = old.available_inputs@;
    let quantity = match req {
        Requirement::Amount(_) => Some(Quantity::Base),
        Requirement::NativeToken(id, _) => Some(Quantity::Token(id)),
        _ => None,
    };
    match quantity {
        Some(q) => {
            if r is Ok {
                let adds = r->Ok_0@;
                if adds.len() == 0 {
                    assert(sel + inputs_of(adds) =~= sel);
                } else {
                    let c = adds.len() as int;
                    assert(inputs_of(adds) =~= avail.subrange(0, c));
                    lemma_total_append(sel, avail.subrange(0, c), q);
                }
            }
        },
        _ => {
            lemma_single_outcome(old, new, req, r);
            if r is Ok {
                let adds = r->Ok_0@;
                if adds.len() == 0 {
                    assert(sel + inputs_of(adds) =~= sel);
                } else {
                    assert(sel + inputs_of(adds) =~= sel.push(adds[0].0));
                }
            }
        },
    }
}

/// Adding what a handler took to the selected pool keeps the identifiers of
/// the two pools together as they were, and keeps them apart.
pub(crate) proof fn lemma_moved_pool(old: InputSelection, new: InputSelection, adds: Seq<(InputSigningData, Option<AliasTransition>)>)
    requires
        moved(old, new, adds),
    ensures
        ({
            let after = old.selected_inputs@ + inputs_of(adds) + new.available_inputs@;
            &&& ids_of(after) == ids_of(old.pool())
            &&& ids_unique(old.pool()) ==> ids_unique(after)
            &&& all_addressable(old.pool()) ==> all_addressable(after)
        }),
{
    let sel = old.selected_inputs@;
    let avail = old.available_inputs@;
    let after = sel + inputs_of(adds) + new.available_inputs@;
    if kept(old, new, adds) {
        assert(after =~= old.pool());
    } else if exists|i: int| took(old, new, i, adds, adds[0].1) {
        let i = choose|i: int| took(old, new, i, adds, adds[0].1);
        assert(after =~= sel.push(avail[i]) + swap_removed(avail, i));
        lemma_move_input(sel, avail, i);
    } else {
        let c = choose|c: int| took_first(old, new, c, adds);
        assert(inputs_of(adds) =~= avail.subrange(0, c));
        assert(after =~= old.pool());
    }
}

/// A handler that failed left the state as it was, so on that state it
/// fails again, in the same way.
proof fn lemma_failure_repeats(old: InputSelection, new: InputSelection, req: Requirement, r: Result<Additions, Error>)
    requires
        requirement_outcome(old, new, req, r),
        r is Err,
    ensures
        requirement_outcome(new, new, req, r),
        r == Err::<Additions, Error>(Error::UnfulfillableRequirement(req)),
{
    lemma_outcome(old, new, req, r);
}

proof fn lemma_prefix_push<T>(pre: Seq<T>, s: Seq<T>, x: T)
    requires
        is_prefix(pre, s),
    ensures
        is_prefix(pre, s.push(x)),
{
    assert(s.push(x).subrange(0, pre.len() as int) =~= s.subrange(0, pre.len() as int));
}

impl InputSelection {
    /// Dispatches a requirement to the handler of its kind.
    pub fn fulfill_requirement(&mut self, requirement: Requirement) -> (r: Result<Additions, Error>)
        requires
            old(self).wf(),
        ensures
            requirement_outcome(*old(self), *final(self), requirement, r),
            already_fulfilled(*old(self), requirement) ==> {
                &&& r is Ok
                &&& r->Ok_0@.len() == 0
                &&& final(self).selected_inputs@ == old(self).selected_inputs@
                &&& final(self).available_inputs@ == old(self).available_inputs@
            },
    {
        let ghost before = *self;
        let r = match requirement {
            Requirement::Amount(amount) => self.fulfill_amount_requirement(amount),
            Requirement::NativeToken(token_id, amount) => self.fulfill_native_token_requirement(token_id, amount),
            Requirement::Sender(address) => self.fulfill_sender_requirement(address),
            Requirement::Issuer(address) => self.fulfill_issuer_requirement(address),
            Requirement::Alias(alias_id, transition) => self.fulfill_alias_requirement(alias_id, transition),
            Requirement::Nft(nft_id) => self.fulfill_nft_requirement(nft_id),
            Requirement::Foundry(foundry_id) => self.fulfill_foundry_requirement(foundry_id),
        };
        proof {
            if already_fulfilled(before, requirement) {
                lemma_fulfilled_requirement_is_idempotent(before, *self, requirement, r);
            }
        }
        r
    }

    /// Fulfills the requirements in order, moving each input a handler takes
    /// into the selected pool and recording the alias transition it forces.
    /// Stops at the first requirement that cannot be fulfilled.
    pub fn fulfill_requirements(&mut self, requirements: &Vec<Requirement>) -> (r: Result<(), Error>)
        requires
            old(self).wf(),
        ensures
            exists|trace: Seq<InputSelection>, n: int|
                #[trigger] run_from(*old(self), requirements@, trace, n, *final(self), r),
            final(self).wf(),
            ids_of(final(self).pool()) == ids_of(old(self).pool()),
            final(self).outputs@ == old(self).outputs@,
            final(self).timestamp == old(self).timestamp,
            is_prefix(old(self).selected_inputs@, final(self).selected_inputs@),
            is_prefix(old(self).alias_transitions@, final(self).alias_transitions@),
            r is Ok ==> forall|k: int|
                0 <= k < requirements@.len()
                    ==> satisfied(final(self).selected_inputs@, old(self).outputs@, old(self).timestamp, #[trigger] requirements@[k]),
            r is Err ==> exists|k: int|
                0 <= k < requirements@.len()
                && r == Err::<(), Error>(Error::UnfulfillableRequirement(requirements@[k]))
                && requirement_outcome(*final(self), *final(self), requirements@[k], Err::<Additions, Error>(Error::UnfulfillableRequirement(requirements@[k])))
                && forall|j: int|
                    0 <= j < k
                        ==> satisfied(final(self).selected_inputs@, old(self).outputs@, old(self).timestamp, #[trigger] requirements@[j]),
    {
        let mut k: usize = 0;
        let ghost mut trace: Seq<InputSelection> = seq![*self];
        proof {
            assert(self.selected_inputs@.subrange(0, self.selected_inputs@.len() as int) =~= self.selected_inputs@);
            assert(self.alias_transitions@.subrange(0, self.alias_transitions@.len() as int) =~= self.alias_transitions@);
        }
        while k < requirements.len()
            invariant
                self.wf(),
                ids_of(self.pool()) == ids_of(old(self).pool()),
                self.outputs@ == old(self).outputs@,
                self.timestamp == old(self).timestamp,
                is_prefix(old(self).selected_inputs@, self.selected_inputs@),
                is_prefix(old(self).alias_transitions@, self.alias_transitions@),
                0 <= k <= requirements@.len(),
                forall|j: int|
                    0 <= j < k ==> satisfied(self.selected_inputs@, self.outputs@, self.timestamp, #[trigger] requirements@[j]),
                trace.len() == k + 1,
                trace[0] == *old(self),
                trace[k as int] == *self,
                forall|j: int| 0 <= j < k ==> #[trigger] step(trace[j], requirements@[j], trace[j + 1]),
            decreases requirements@.len() - k,
        {
            let requirement = requirements[k];
            let ghost before = *self;
            let res = self.fulfill_requirement(requirement);
            let ghost res_g = res;
            let ghost mid = *self;
            proof {
                lemma_outcome(before, *self, requirement, res);
            }
            match res {
                Err(e) => {
                    proof {
                        assert(self.selected_inputs@ == before.selected_inputs@);
                        assert(requirements@[k as int] == requirement);
                        assert(run_from(*old(self), requirements@, trace, k as int, *self, Err::<(), Error>(e)));
                        lemma_failure_repeats(before, *self, requirement, res_g);
                    }
                    return Err(e);
                },
                Ok(adds) => {
                    let mut adds = adds;
                    let ghost adds_g = adds@;
                    let ghost target_sel = before.selected_inputs@ + inputs_of(adds@);
                    let ghost target_tr = mid.alias_transitions@ + tagged(adds@);
                    let ghost after_avail = self.available_inputs@;
                    proof {
                        lemma_moved_pool(before, *self, adds@);
                        assert(self.selected_inputs@ + inputs_of(adds@) == target_sel);
                    }
                    while adds.len() > 0
                        invariant
                            self.selected_inputs@ + inputs_of(adds@) == target_sel,
                            self.alias_transitions@ + tagged(adds@) == target_tr,
                            self.available_inputs@ == after_avail,
                            self.outputs@ == old(self).outputs@,
                            self.timestamp == old(self).timestamp,
                            is_prefix(old(self).selected_inputs@, self.selected_inputs@),
                            is_prefix(old(self).alias_transitions@, self.alias_transitions@),
                            forall|j: int|
                                0 <= j < k ==> satisfied(self.selected_inputs@, self.outputs@, self.timestamp, #[trigger] requirements@[j]),
                        decreases adds@.len(),
                    {
                        let ghost rest = adds@;
                        let (input, transition) = adds.remove(0);
                        proof {
                            assert forall|j: int| 0 <= j < k implies
                                satisfied(self.selected_inputs@.push(input), self.outputs@, self.timestamp, #[trigger] requirements@[j]) by {
                                lemma_satisfied_push(self.selected_inputs@, input, self.outputs@, self.timestamp, requirements@[j]);
                            }
                            lemma_prefix_push(old(self).selected_inputs@, self.selected_inputs@, input);
                            assert(self.selected_inputs@.push(input) + inputs_of(adds@)
                                =~= self.selected_inputs@ + inputs_of(rest));
                            let head = seq![(input, transition)];
                            assert(head + adds@ =~= rest);
                            lemma_tagged_append(head, adds@);
                            assert(head.drop_last() =~= Seq::<(InputSigningData, Option<AliasTransition>)>::empty());
                            assert(tagged(head.drop_last()) =~= Seq::<(OutputId, AliasTransition)>::empty());
                            assert(head.last() == (input, transition));
                            assert(tagged(rest) == tagged(head) + tagged(adds@));
                        }
                        if let Some(t) = transition {
                            proof {
                                lemma_prefix_push(old(self).alias_transitions@, self.alias_transitions@, (input.output_id, t));
                                assert(tagged(seq![(input, transition)]) =~= seq![(input.output_id, t)]);
                                assert(self.alias_transitions@.push((input.output_id, t)) + tagged(adds@)
                                    =~= self.alias_transitions@ + (seq![(input.output_id, t)] + tagged(adds@)));
                            }
                            self.alias_transitions.push((input.output_id, t));
                        } else {
                            proof {
                                assert(tagged(seq![(input, transition)]) =~= Seq::<(OutputId, AliasTransition)>::empty());
                                assert(Seq::<(OutputId, AliasTransition)>::empty() + tagged(adds@) =~= tagged(adds@));
                            }
                        }
                        self.selected_inputs.push(input);
                    }
                    proof {
                        assert(self.selected_inputs@ =~= target_sel);
                        assert(self.alias_transitions@ =~= target_tr);
                        assert(self.pool() == before.selected_inputs@ + inputs_of(res_g->Ok_0@) + after_avail);
                        assert(applied(mid, res_g->Ok_0@, *self));
                        assert(requirement_outcome(before, mid, requirement, Ok::<Additions, Error>(res_g->Ok_0)));
                        assert(step(before, requirement, *self));
                        trace = trace.push(*self);
                        assert forall|j: int| 0 <= j < k + 1 implies #[trigger] step(trace[j], requirements@[j], trace[j + 1]) by {
                            if j < k {
                                assert(trace[j] == trace.drop_last()[j] && trace[j + 1] == trace.drop_last()[j + 1]);
                            }
                        }
                    }
                },
            }
            k += 1;
        }
        proof {
            assert(run_from(*old(self), requirements@, trace, k as int, *self, Ok::<(), Error>(())));
        }
        Ok(())
    }

    /// Runs the selection to completion and hands over the selected inputs
    /// with the alias transitions they force, or the first requirement that
    /// could not be fulfilled.
    pub fn select(self, requirements: &Vec<Requirement>) -> (r: Result<Selection, Error>)
        requires
            self.wf(),
        ensures
            r is Ok ==> exists|trace: Seq<InputSelection>, n: int, last: InputSelection|
                #[trigger] run_from(self, requirements@, trace, n, last, Ok::<(), Error>(()))
                && r->Ok_0.inputs@ == last.selected_inputs@
                && r->Ok_0.alias_transitions@ == last.alias_transitions@,
            r is Err ==> exists|trace: Seq<InputSelection>, n: int, last: InputSelection|
                #[trigger] run_from(self, requirements@, trace, n, last, Err::<(), Error>(r->Err_0)),
            r is Ok ==> {
                let s = r->Ok_0;
                &&& is_prefix(self.selected_inputs@, s.inputs@)
                &&& is_prefix(self.alias_transitions@, s.alias_transitions@)
                &&& ids_unique(s.inputs@)
                &&& ids_of(s.inputs@).subset_of(ids_of(self.pool()))
                &&& forall|k: int|
                    0 <= k < requirements@.len()
                        ==> satisfied(s.inputs@, self.outputs@, self.timestamp, #[trigger] requirements@[k])
            },
            r is Err ==> exists|k: int|
                0 <= k < requirements@.len() && r == Err::<Selection, Error>(Error::UnfulfillableRequirement(requirements@[k])),
    {
        let mut run = self;
        let res = run.fulfill_requirements(requirements);
        let ghost (trace, n) = choose|trace: Seq<InputSelection>, n: int| run_from(self, requirements@, trace, n, run, res);
        match res {
            Ok(()) => {
                proof {
                    assert(run_from(self, requirements@, trace, n, run, Ok::<(), Error>(())));
                    let sel = run.selected_inputs@;
                    let pool = run.pool();
                    assert forall|a: int, b: int| 0 <= a < b < sel.len() implies
                        (#[trigger] sel[a]).output_id != (#[trigger] sel[b]).output_id by {
                        assert(pool[a] == sel[a] && pool[b] == sel[b]);
                    }
                    assert forall|id: OutputId| ids_of(sel).contains(id) implies ids_of(pool).contains(id) by {
                        let k = choose|k: int| 0 <= k < sel.len() && (#[trigger] sel[k]).output_id == id;
                        assert(pool[k] == sel[k]);
                    }
                }
                Ok(Selection { inputs: run.selected_inputs, alias_transitions: run.alias_transitions })
            },
            Err(e) => {
                let r: Result<Selection, Error> = Err(e);
                assert(run_from(self, requirements@, trace, n, run, Err::<(), Error>(r->Err_0)));
                r
            },
        }
    }
}

} // verus!
