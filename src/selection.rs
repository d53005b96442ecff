use vstd::prelude::*;
use crate::input::{InputSigningData, OutputId};
use crate::output::{AliasTransition, Output};
use crate::requirement::{Error, Requirement};

verus! {

/// What a handler hands back on success: the inputs it took from the available
/// pool, each with the alias transition that taking it forces, if any.
pub type Additions = Vec<(InputSigningData, Option<AliasTransition>)>;

/// The state of one selection run: the inputs selected so far, the candidates
/// still available, the outputs being built and the time at which unlocks are
/// judged.
pub struct InputSelection {
    pub selected_inputs: Vec<InputSigningData>,
    pub available_inputs: Vec<InputSigningData>,
    pub outputs: Vec<Output>,
    pub timestamp: u32,
    /// The alias transitions that selecting inputs has forced, by input.
    pub alias_transitions: Vec<(OutputId, AliasTransition)>,
}

/// `s` with its element at `i` replaced by its last one, and shortened by one.
pub open spec fn swap_removed(s: Seq<InputSigningData>, i: int) -> Seq<InputSigningData> {
    s.update(i, s.last()).drop_last()
}

/// Some element of `s` satisfies `p`.
pub open spec fn has_match(s: Seq<InputSigningData>, p: spec_fn(InputSigningData) -> bool) -> bool {
    exists|i: int| 0 <= i < s.len() && #[trigger] p(s[i])
}

/// `i` is the first position of `s` whose element satisfies `p`.
pub open spec fn is_first(s: Seq<InputSigningData>, i: int, p: spec_fn(InputSigningData) -> bool) -> bool {
    &&& 0 <= i < s.len()
    &&& p(s[i])
    &&& forall|j: int| 0 <= j < i ==> !#[trigger] p(s[j])
}

/// The identifiers of the inputs in `s`, as a set.
pub open spec fn ids_of(s: Seq<InputSigningData>) -> Set<OutputId> {
    Set::new(|id: OutputId| exists|k: int| 0 <= k < s.len() && (#[trigger] s[k]).output_id == id)
}

/// No identifier occurs twice in `s`.
pub open spec fn ids_unique(s: Seq<InputSigningData>) -> bool {
    forall|a: int, b: int|
        0 <= a < b < s.len() ==> (#[trigger] s[a]).output_id != (#[trigger] s[b]).output_id
}

/// Every output in `s` names an address that controls it.
pub open spec fn all_addressable(s: Seq<InputSigningData>) -> bool {
    forall|k: int| 0 <= k < s.len() ==> (#[trigger] s[k]).output.addressable()
}

/// Only the available pool differs between the two states.
pub open spec fn same_but_available(old: InputSelection, new: InputSelection) -> bool {
    &&& new.selected_inputs@ == old.selected_inputs@
    &&& new.outputs@ == old.outputs@
    &&& new.timestamp == old.timestamp
    &&& new.alias_transitions@ == old.alias_transitions@
}

/// Nothing was taken: no additions and the state is as it was.
pub open spec fn kept(old: InputSelection, new: InputSelection, adds: Seq<(InputSigningData, Option<AliasTransition>)>) -> bool {
    &&& adds.len() == 0
    &&& new.available_inputs@ == old.available_inputs@
    &&& same_but_available(old, new)
}

/// The available input at `i` was taken, swap-removed from the pool, and
/// handed back as the single addition, tagged with `tr`.
pub open spec fn took(
    old: InputSelection,
    new: InputSelection,
    i: int,
    adds: Seq<(InputSigningData, Option<AliasTransition>)>,
    tr: Option<AliasTransition>,
) -> bool {
    &&& 0 <= i < old.available_inputs@.len()
    &&& adds == seq![(old.available_inputs@[i], tr)]
    &&& new.available_inputs@ == swap_removed(old.available_inputs@, i)
    &&& same_but_available(old, new)
}

/// The outcome of a handler that needs one input satisfying `p`: none is
/// taken if a selected input satisfies it; otherwise the first available
/// one is taken, tagged with `tr`; otherwise the run fails naming `err`.
pub open spec fn select_one(
    old: InputSelection,
    new: InputSelection,
    p: spec_fn(InputSigningData) -> bool,
    tr: Option<AliasTransition>,
    err: Requirement,
    r: Result<Additions, Error>,
) -> bool {
    if has_match(old.selected_inputs@, p) {
        r is Ok && kept(old, new, r->Ok_0@)
    } else if has_match(old.available_inputs@, p) {
        r is Ok && exists|i: int| is_first(old.available_inputs@, i, p) && took(old, new, i, r->Ok_0@, tr)
    } else {
        r == Err::<Additions, Error>(Error::UnfulfillableRequirement(err)) && kept(old, new, seq![])
    }
}

/// Where the input at position `k` of the pools after a move came from, in the
/// pools before it; the move takes the available input at `i` and appends it
/// to the `n` selected ones.
spec fn moved_from(n: int, len: int, i: int, k: int) -> int {
    if k < n {
        k
    } else if k == n {
        n + i
    } else if k - n - 1 == i {
        n + len - 1
    } else {
        k - 1
    }
}

/// Where the input at position `m` of the pools before a move goes.
spec fn moved_to(n: int, len: int, i: int, m: int) -> int {
    if m < n {
        m
    } else if m == n + i {
        n
    } else if m == n + len - 1 {
        n + 1 + i
    } else {
        m + 1
    }
}

/// Moving one input from the available pool to the selected one keeps the
/// identifiers of the two pools together as they were, and keeps them apart.
pub proof fn lemma_move_input(sel: Seq<InputSigningData>, avail: Seq<InputSigningData>, i: int)
    requires
        0 <= i < avail.len(),
    ensures
        ids_of(sel.push(avail[i]) + swap_removed(avail, i)) == ids_of(sel + avail),
        ids_unique(sel + avail) ==> ids_unique(sel.push(avail[i]) + swap_removed(avail, i)),
        all_addressable(sel + avail) ==> all_addressable(sel.push(avail[i]) + swap_removed(avail, i)),
{
    let before = sel + avail;
    let after = sel.push(avail[i]) + swap_removed(avail, i);
    let n = sel.len() as int;
    let len = avail.len() as int;
    assert(after.len() == before.len());
    assert forall|k: int| 0 <= k < after.len() implies
        0 <= moved_from(n, len, i, k) < before.len()
        && after[k] == before[moved_from(n, len, i, k)]
        && moved_to(n, len, i, moved_from(n, len, i, k)) == k by {}
    assert forall|m: int| 0 <= m < before.len() implies
        0 <= moved_to(n, len, i, m) < after.len()
        && after[moved_to(n, len, i, m)] == before[m] by {
        let k = moved_to(n, len, i, m);
        assert(moved_from(n, len, i, k) == m);
    }
    assert(ids_of(after) =~= ids_of(before)) by {
        assert forall|id: OutputId| ids_of(after).contains(id) implies ids_of(before).contains(id) by {
            let k = choose|k: int| 0 <= k < after.len() && (#[trigger] after[k]).output_id == id;
            assert(before[moved_from(n, len, i, k)].output_id == id);
        }
        assert forall|id: OutputId| ids_of(before).contains(id) implies ids_of(after).contains(id) by {
            let m = choose|m: int| 0 <= m < before.len() && (#[trigger] before[m]).output_id == id;
            assert(after[moved_to(n, len, i, m)].output_id == id);
        }
    }
    if ids_unique(before) {
        assert forall|a: int, b: int| 0 <= a < b < after.len() implies
            (#[trigger] after[a]).output_id != (#[trigger] after[b]).output_id by {
            let fa = moved_from(n, len, i, a);
            let fb = moved_from(n, len, i, b);
            assert(fa != fb);
            if fa < fb {
                assert(before[fa].output_id != before[fb].output_id);
            } else {
                assert(before[fb].output_id != before[fa].output_id);
            }
        }
    }
    if all_addressable(before) {
        assert forall|k: int| 0 <= k < after.len() implies (#[trigger] after[k]).output.addressable() by {
            assert(before[moved_from(n, len, i, k)].output.addressable());
        }
    }
}

impl InputSelection {
    /// Both pools together.
    pub open spec fn pool(self) -> Seq<InputSigningData> {
        self.selected_inputs@ + self.available_inputs@
    }

    /// No identifier occurs twice across the two pools, so none is in both;
    /// and every pooled output names an address that controls it.
    pub open spec fn wf(self) -> bool {
        &&& ids_unique(self.pool())
        &&& all_addressable(self.pool())
    }

    /// Starts a run over the given pools, outputs being built, and time.
    pub fn new(
        selected_inputs: Vec<InputSigningData>,
        available_inputs: Vec<InputSigningData>,
        outputs: Vec<Output>,
        timestamp: u32,
    ) -> (r: Self)
        requires
            ids_unique(selected_inputs@ + available_inputs@),
            all_addressable(selected_inputs@ + available_inputs@),
        ensures
            r.wf(),
            r.selected_inputs@ == selected_inputs@,
            r.available_inputs@ == available_inputs@,
            r.outputs@ == outputs@,
            r.timestamp == timestamp,
            r.alias_transitions@.len() == 0,
    {
        InputSelection { selected_inputs, available_inputs, outputs, timestamp, alias_transitions: Vec::new() }
    }
}

} // verus!
