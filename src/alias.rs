use vstd::prelude::*;
use crate::address::AliasId;
use crate::input::InputSigningData;
use crate::output::{AliasTransition, Output};

verus! {

/// How an alias consumed with state index `state_index` is transitioned by
/// the outputs from position `i` on: the first output of the same alias
/// decides (Governance when it keeps the state index, State when it changes
/// it); with no such output the alias is destroyed, which its governor does.
pub open spec fn transition_in(outputs: Seq<Output>, alias_id: AliasId, state_index: u32, i: int) -> AliasTransition
    decreases outputs.len() - i,
{
    if i < 0 || i >= outputs.len() {
        AliasTransition::Governance
    } else if outputs[i] matches Output::Alias(o) && o.alias_id == alias_id {
        if outputs[i]->Alias_0.state_index == state_index {
            AliasTransition::Governance
        } else {
            AliasTransition::State
        }
    } else {
        transition_in(outputs, alias_id, state_index, i + 1)
    }
}

/// The transition that the outputs being built impose on an input, if it is an alias.
pub open spec fn alias_transition_of(input: InputSigningData, outputs: Seq<Output>) -> Option<AliasTransition> {
    match input.output {
        Output::Alias(o) => Some(transition_in(outputs, o.alias_id, o.state_index, 0)),
        _ => None,
    }
}

/// Tells how an input is transitioned by the outputs being built, if it is an alias.
pub fn is_alias_transition(input: &InputSigningData, outputs: &[Output]) -> (r: Option<AliasTransition>)
    ensures
        r == alias_transition_of(*input, outputs@),
{
    match &input.output {
        Output::Alias(alias_input) => {
            let mut i: usize = 0;
            while i < outputs.len()
                invariant
                    0 <= i <= outputs@.len(),
                    input.output == Output::Alias(*alias_input),
                    transition_in(outputs@, alias_input.alias_id, alias_input.state_index, 0)
                        == transition_in(outputs@, alias_input.alias_id, alias_input.state_index, i as int),
                decreases outputs@.len() - i,
            {
                let output = &outputs[i];
                assert(*output == outputs@[i as int]);
                if let Output::Alias(alias_output) = output {
                    if alias_output.alias_id == alias_input.alias_id {
                        if alias_output.state_index == alias_input.state_index {
                            return Some(AliasTransition::Governance);
                        } else {
                            return Some(AliasTransition::State);
                        }
                    }
                }
                i += 1;
            }
            Some(AliasTransition::Governance)
        },
        _ => None,
    }
}

} // verus!
