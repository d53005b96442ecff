use vstd::prelude::*;
use crate::input::InputSigningData;
use crate::output::{AliasTransition, NativeToken, Output, TokenId};
use crate::requirement::{Error, Requirement};
use crate::selection::{kept, same_but_available, Additions, InputSelection};

verus! {

/// What a quantity requirement counts: base tokens, or one native token.
#[derive(Clone, Copy, Debug, PartialEq, Eq, Structural)]
pub enum Quantity {
    Base,
    Token(TokenId),
}

/// The amount of native token `id` in `tokens`: that of its first entry, if any.
pub open spec fn token_amount(tokens: Seq<NativeToken>, id: TokenId) -> nat
    decreases tokens.len(),
{
    if tokens.len() == 0 {
        0
    } else if tokens[0].token_id == id {
        tokens[0].amount as nat
    } else {
        token_amount(tokens.drop_first(), id)
    }
}

/// The native tokens an output holds; a treasury output holds none.
pub open spec fn native_tokens_of(output: Output) -> Seq<NativeToken> {
    match output {
        Output::Basic(o) => o.native_tokens@,
        Output::Alias(o) => o.native_tokens@,
        Output::Nft(o) => o.native_tokens@,
        Output::Foundry(o) => o.native_tokens@,
        Output::Treasury(_) => seq![],
    }
}

/// How much of `q` an input holds.
pub open spec fn held(input: InputSigningData, q: Quantity) -> nat {
    match q {
        Quantity::Base => input.output.amount_of(),
        Quantity::Token(id) => token_amount(native_tokens_of(input.output), id),
    }
}

/// How much of `q` the inputs of `s` hold together.
pub open spec fn total(s: Seq<InputSigningData>, q: Quantity) -> nat
    decreases s.len(),
{
    if s.len() == 0 {
        0
    } else {
        total(s.drop_last(), q) + held(s.last(), q)
    }
}

/// Each input of `s`, with no alias transition.
pub open spec fn untagged(s: Seq<InputSigningData>) -> Seq<(InputSigningData, Option<AliasTransition>)> {
    s.map_values(|x: InputSigningData| (x, None::<AliasTransition>))
}

/// The first `c` available inputs were taken, in order and untagged.
pub open spec fn took_first(
    old: InputSelection,
    new: InputSelection,
    c: int,
    adds: Seq<(InputSigningData, Option<AliasTransition>)>,
) -> bool {
    let avail = old.available_inputs@;
    &&& 0 < c <= avail.len()
    &&& adds == untagged(avail.subrange(0, c))
    &&& new.available_inputs@ == avail.subrange(c, avail.len() as int)
    &&& same_but_available(old, new)
}

/// The outcome of a quantity requirement: nothing is taken if the selected
/// inputs already hold `target` of `q`; otherwise the shortest prefix of the
/// available pool that makes up the difference is taken; when even the whole
/// pool falls short, the run fails naming `err`.
pub open spec fn quantity_outcome(
    old: InputSelection,
    new: InputSelection,
    q: Quantity,
    target: u128,
    err: Requirement,
    r: Result<Additions, Error>,
) -> bool {
    let sel = old.selected_inputs@;
    let avail = old.available_inputs@;
    if total(sel, q) >= target {
        r is Ok && kept(old, new, r->Ok_0@)
    } else if total(sel, q) + total(avail, q) >= target {
        r is Ok && {
            let c = r->Ok_0@.len() as int;
            &&& took_first(old, new, c, r->Ok_0@)
            &&& total(sel, q) + total(avail.subrange(0, c), q) >= target
            &&& total(sel, q) + total(avail.subrange(0, c - 1), q) < target
        }
    } else {
        r == Err::<Additions, Error>(Error::UnfulfillableRequirement(err)) && kept(old, new, seq![])
    }
}

/// A longer prefix holds at least as much.
pub proof fn lemma_total_prefix(s: Seq<InputSigningData>, q: Quantity, i: int, j: int)
    requires
        0 <= i <= j <= s.len(),
    ensures
        total(s.subrange(0, i), q) <= total(s.subrange(0, j), q),
    decreases j - i,
{
    if i < j {
        lemma_total_prefix(s, q, i, j - 1);
        assert(s.subrange(0, j).drop_last() =~= s.subrange(0, j - 1));
    }
}

/// Appending inputs adds their totals.
pub proof fn lemma_total_append(a: Seq<InputSigningData>, b: Seq<InputSigningData>, q: Quantity)
    ensures
        total(a + b, q) == total(a, q) + total(b, q),
    decreases b.len(),
{
    if b.len() > 0 {
        lemma_total_append(a, b.drop_last(), q);
        assert((a + b).drop_last() =~= a + b.drop_last());
    } else {
        assert(a + b =~= a);
    }
}

fn token_amount_in(tokens: &Vec<NativeToken>, id: TokenId) -> (r: u128)
    ensures
        r as nat == token_amount(tokens@, id),
{
    let mut i: usize = 0;
    assert(tokens@.subrange(0, tokens@.len() as int) =~= tokens@);
    while i < tokens.len()
        invariant
            0 <= i <= tokens@.len(),
            token_amount(tokens@, id) == token_amount(tokens@.subrange(i as int, tokens@.len() as int), id),
        decreases tokens@.len() - i,
    {
        proof {
            let rest = tokens@.subrange(i as int, tokens@.len() as int);
            assert(rest.drop_first() =~= tokens@.subrange(i + 1, tokens@.len() as int));
        }
        if tokens[i].token_id == id {
            return tokens[i].amount;
        }
        i += 1;
    }
    0
}

/// How much of `q` an input holds.
fn held_by(input: &InputSigningData, q: Quantity) -> (r: u128)
    ensures
        r as nat == held(*input, q),
{
    match q {
        Quantity::Base => input.output.amount() as u128,
        Quantity::Token(id) => match &input.output {
            Output::Basic(o) => token_amount_in(&o.native_tokens, id),
            Output::Alias(o) => token_amount_in(&o.native_tokens, id),
            Output::Nft(o) => token_amount_in(&o.native_tokens, id),
            Output::Foundry(o) => token_amount_in(&o.native_tokens, id),
            Output::Treasury(_) => 0,
        },
    }
}

impl InputSelection {
    /// Takes available inputs, in pool order, until the selected inputs hold
    /// at least `target` of `q`; fails naming `err` when they cannot.
    fn fulfill_quantity(&mut self, q: Quantity, target: u128, err: Requirement) -> (r: Result<Additions, Error>)
        ensures
            quantity_outcome(*old(self), *final(self), q, target, err, r),
    {
        let ghost sel = self.selected_inputs@;
        let ghost avail = self.available_inputs@;
        if target == 0 {
            return Ok(Vec::new());
        }
        // What the selected inputs hold, counted until it reaches the target.
        let mut sum: u128 = 0;
        let mut i: usize = 0;
        while i < self.selected_inputs.len()
            invariant
                *self == *old(self),
                sel == self.selected_inputs@,
                0 <= i <= sel.len(),
                sum == total(sel.subrange(0, i as int), q),
                sum < target,
            decreases sel.len() - i,
        {
            let x = held_by(&self.selected_inputs[i], q);
            proof {
                assert(sel.subrange(0, i + 1).drop_last() =~= sel.subrange(0, i as int));
            }
            if x >= target - sum {
                proof {
                    lemma_total_prefix(sel, q, i + 1, sel.len() as int);
                    assert(sel.subrange(0, sel.len() as int) =~= sel);
                }
                return Ok(Vec::new());
            }
            sum = sum + x;
            i += 1;
        }
        assert(sel.subrange(0, i as int) =~= sel);
        // The available inputs needed to make up the difference.
        let mut c: usize = 0;
        let mut reached = false;
        while c < self.available_inputs.len() && !reached
            invariant
                *self == *old(self),
                sel == self.selected_inputs@,
                avail == self.available_inputs@,
                0 <= c <= avail.len(),
                total(sel, q) < target,
                !reached ==> sum == total(sel, q) + total(avail.subrange(0, c as int), q) && sum < target,
                reached ==> {
                    &&& c > 0
                    &&& total(sel, q) + total(avail.subrange(0, c as int), q) >= target
                    &&& total(sel, q) + total(avail.subrange(0, c - 1), q) < target
                },
            decreases avail.len() - c,
        {
            let x = held_by(&self.available_inputs[c], q);
            proof {
                assert(avail.subrange(0, c + 1).drop_last() =~= avail.subrange(0, c as int));
            }
            if x >= target - sum {
                reached = true;
            } else {
                sum = sum + x;
            }
            c += 1;
        }
        if !reached {
            proof {
                assert(avail.subrange(0, c as int) =~= avail);
            }
            return Err(Error::UnfulfillableRequirement(err));
        }
        // Takes them, in order.
        proof {
            lemma_total_prefix(avail, q, c as int, avail.len() as int);
            assert(avail.subrange(0, avail.len() as int) =~= avail);
        }
        let mut adds: Additions = Vec::new();
        let mut j: usize = 0;
        while j < c
            invariant
                0 <= j <= c <= avail.len(),
                0 < c,
                sel == old(self).selected_inputs@,
                avail == old(self).available_inputs@,
                total(sel, q) < target,
                total(sel, q) + total(avail, q) >= target,
                total(sel, q) + total(avail.subrange(0, c as int), q) >= target,
                total(sel, q) + total(avail.subrange(0, c - 1), q) < target,
                self.available_inputs@ == avail.subrange(j as int, avail.len() as int),
                adds@ == untagged(avail.subrange(0, j as int)),
                same_but_available(*old(self), *self),
            decreases c - j,
        {
            let input = self.available_inputs.remove(0);
            adds.push((input, None));
            proof {
                assert(self.available_inputs@ =~= avail.subrange(j + 1, avail.len() as int));
                assert(adds@ =~= untagged(avail.subrange(0, j + 1)));
            }
            j += 1;
        }
        Ok(adds)
    }

    /// Fulfills an amount requirement: the selected inputs must hold at least
    /// `amount` base tokens.
    pub fn fulfill_amount_requirement(&mut self, amount: u64) -> (r: Result<Additions, Error>)
        ensures
            quantity_outcome(*old(self), *final(self), Quantity::Base, amount as u128, Requirement::Amount(amount), r),
    {
        self.fulfill_quantity(Quantity::Base, amount as u128, Requirement::Amount(amount))
    }

    /// Fulfills a native-token requirement: the selected inputs must hold at
    /// least `amount` of the token.
    pub fn fulfill_native_token_requirement(&mut self, token_id: TokenId, amount: u128) -> (r: Result<Additions, Error>)
        ensures
            quantity_outcome(
                *old(self),
                *final(self),
                Quantity::Token(token_id),
                amount,
                Requirement::NativeToken(token_id, amount),
                r,
            ),
    {
        self.fulfill_quantity(Quantity::Token(token_id), amount, Requirement::NativeToken(token_id, amount))
    }
}

} // verus!
