use input_selection::{
    is_alias_transition, NativeToken, TokenId, Address, AliasId, AliasOutput, AliasTransition, BasicOutput, Ed25519Address,
    Error, ExpirationUnlockCondition, Features, FoundryId, FoundryOutput, InputSelection, InputSigningData,
    NftId, NftOutput, Output, OutputId, Requirement, TransactionId, UnlockConditions,
};

fn key(n: u128) -> Address {
    Address::Ed25519(Ed25519Address(n, n))
}

fn id(n: u16) -> OutputId {
    OutputId { transaction_id: TransactionId(7, 9), index: n }
}

fn no_conditions() -> UnlockConditions {
    UnlockConditions {
        address: None,
        state_controller_address: None,
        governor_address: None,
        immutable_alias_address: None,
        expiration: None,
        timelock: None,
        storage_deposit_return: None,
    }
}

fn no_features() -> Features {
    Features { sender: None, issuer: None, metadata: None, tag: None }
}

fn basic(n: u16, owner: Address) -> InputSigningData {
    let mut unlock_conditions = no_conditions();
    unlock_conditions.address = Some(owner);
    InputSigningData {
        output: Output::Basic(BasicOutput {
            amount: 1_000_000,
            native_tokens: Vec::new(),
            unlock_conditions,
            features: no_features(),
        }),
        output_id: id(n),
        chain: None,
    }
}

fn basic_holding(n: u16, owner: Address, amount: u64) -> InputSigningData {
    let mut input = basic(n, owner);
    if let Output::Basic(o) = &mut input.output {
        o.amount = amount;
    }
    input
}

fn basic_with_tokens(n: u16, tokens: Vec<(u128, u128)>) -> InputSigningData {
    let mut input = basic(n, key(1));
    if let Output::Basic(o) = &mut input.output {
        o.native_tokens = tokens
            .into_iter()
            .map(|(t, amount)| NativeToken { token_id: TokenId(t, t), amount })
            .collect();
    }
    input
}

fn alias_output(alias: AliasId, state_index: u32, state_controller: Address, governor: Address) -> AliasOutput {
    let mut unlock_conditions = no_conditions();
    unlock_conditions.state_controller_address = Some(state_controller);
    unlock_conditions.governor_address = Some(governor);
    AliasOutput {
        amount: 1_000_000,
        native_tokens: Vec::new(),
        alias_id: alias,
        state_index,
        foundry_counter: 0,
        unlock_conditions,
        features: no_features(),
    }
}

fn alias(n: u16, alias: AliasId, state_controller: Address, governor: Address) -> InputSigningData {
    InputSigningData {
        output: Output::Alias(alias_output(alias, 3, state_controller, governor)),
        output_id: id(n),
        chain: None,
    }
}

fn nft(n: u16, nft: NftId, owner: Address) -> InputSigningData {
    let mut unlock_conditions = no_conditions();
    unlock_conditions.address = Some(owner);
    InputSigningData {
        output: Output::Nft(NftOutput {
            amount: 1_000_000,
            native_tokens: Vec::new(),
            nft_id: nft,
            unlock_conditions,
            features: no_features(),
        }),
        output_id: id(n),
        chain: None,
    }
}

fn foundry(n: u16, alias: AliasId, serial_number: u32) -> InputSigningData {
    let mut unlock_conditions = no_conditions();
    unlock_conditions.immutable_alias_address = Some(alias);
    InputSigningData {
        output: Output::Foundry(FoundryOutput {
            amount: 1_000_000,
            native_tokens: Vec::new(),
            serial_number,
            unlock_conditions,
            features: no_features(),
        }),
        output_id: id(n),
        chain: None,
    }
}

fn ids(inputs: &[InputSigningData]) -> Vec<u16> {
    inputs.iter().map(|i| i.output_id.index).collect()
}

#[test]
fn basic_output_is_preferred_over_alias() {
    let a = key(1);
    let mut selection = InputSelection::new(
        Vec::new(),
        vec![basic(0, a), alias(1, AliasId(5, 5), a, key(2))],
        Vec::new(),
        100,
    );
    let added = selection.fulfill_sender_requirement(a).unwrap();
    assert_eq!(added.len(), 1);
    assert_eq!(added[0].0.output_id, id(0));
    assert_eq!(added[0].1, None);
    assert_eq!(ids(&selection.available_inputs), vec![1]);
}

#[test]
fn basic_output_is_preferred_when_listed_after_alias() {
    let a = key(1);
    let mut selection = InputSelection::new(
        Vec::new(),
        vec![alias(1, AliasId(5, 5), a, key(2)), nft(2, NftId(4, 4), a), basic(0, a)],
        Vec::new(),
        100,
    );
    let added = selection.fulfill_sender_requirement(a).unwrap();
    assert_eq!(added.len(), 1);
    assert_eq!(added[0].0.output_id, id(0));
    assert_eq!(added[0].1, None);
    assert_eq!(ids(&selection.available_inputs), vec![1, 2]);
}

#[test]
fn governor_match_tags_governance_transition() {
    let a = key(1);
    let mut selection = InputSelection::new(Vec::new(), vec![alias(0, AliasId(5, 5), key(2), a)], Vec::new(), 100);
    let added = selection.fulfill_sender_requirement(a).unwrap();
    assert_eq!(added.len(), 1);
    assert_eq!(added[0].0.output_id, id(0));
    assert_eq!(added[0].1, Some(AliasTransition::Governance));
    assert!(selection.available_inputs.is_empty());
}

#[test]
fn state_controller_match_tags_state_transition() {
    let a = key(1);
    let mut selection = InputSelection::new(
        Vec::new(),
        vec![basic(0, key(3)), alias(1, AliasId(5, 5), a, key(2))],
        Vec::new(),
        100,
    );
    let added = selection.fulfill_sender_requirement(a).unwrap();
    assert_eq!(added.len(), 1);
    assert_eq!(added[0].0.output_id, id(1));
    assert_eq!(added[0].1, Some(AliasTransition::State));
    assert_eq!(ids(&selection.available_inputs), vec![0]);
}

#[test]
fn missing_alias_fails_as_sender_requirement() {
    let address = Address::Alias(AliasId(8, 8));
    let mut selection = InputSelection::new(Vec::new(), Vec::new(), Vec::new(), 100);
    assert_eq!(
        selection.fulfill_sender_requirement(address).unwrap_err(),
        Error::UnfulfillableRequirement(Requirement::Sender(address))
    );
}

#[test]
fn missing_nft_fails_as_sender_requirement() {
    let address = Address::Nft(NftId(8, 8));
    let mut selection = InputSelection::new(Vec::new(), vec![nft(0, NftId(9, 9), key(1))], Vec::new(), 100);
    assert_eq!(
        selection.fulfill_sender_requirement(address).unwrap_err(),
        Error::UnfulfillableRequirement(Requirement::Sender(address))
    );
    assert_eq!(ids(&selection.available_inputs), vec![0]);
}

#[test]
fn unknown_key_address_is_unfulfillable() {
    let a = key(1);
    let mut selection = InputSelection::new(
        vec![basic(0, key(2))],
        vec![basic(1, key(3)), alias(2, AliasId(5, 5), key(4), key(5))],
        Vec::new(),
        100,
    );
    assert_eq!(
        selection.fulfill_sender_requirement(a).unwrap_err(),
        Error::UnfulfillableRequirement(Requirement::Sender(a))
    );
    assert_eq!(ids(&selection.selected_inputs), vec![0]);
    assert_eq!(ids(&selection.available_inputs), vec![1, 2]);
}

#[test]
fn already_selected_input_adds_nothing() {
    let a = key(1);
    let mut selection = InputSelection::new(vec![basic(0, a)], vec![basic(1, a)], Vec::new(), 100);
    let added = selection.fulfill_sender_requirement(a).unwrap();
    assert!(added.is_empty());
    assert_eq!(ids(&selection.selected_inputs), vec![0]);
    assert_eq!(ids(&selection.available_inputs), vec![1]);
    let again = selection.fulfill_requirement(Requirement::Sender(a)).unwrap();
    assert!(again.is_empty());
    assert_eq!(ids(&selection.available_inputs), vec![1]);
}

#[test]
fn alias_address_selects_alias_for_state_transition() {
    let alias_id = AliasId(5, 5);
    let mut selection = InputSelection::new(
        Vec::new(),
        vec![basic(0, key(1)), alias(1, alias_id, key(2), key(3))],
        Vec::new(),
        100,
    );
    let added = selection.fulfill_sender_requirement(Address::Alias(alias_id)).unwrap();
    assert_eq!(added.len(), 1);
    assert_eq!(added[0].0.output_id, id(1));
    assert_eq!(added[0].1, Some(AliasTransition::State));
}

#[test]
fn nft_address_selects_nft() {
    let nft_id = NftId(6, 6);
    let mut selection = InputSelection::new(Vec::new(), vec![nft(0, nft_id, key(1))], Vec::new(), 100);
    let added = selection.fulfill_sender_requirement(Address::Nft(nft_id)).unwrap();
    assert_eq!(added.len(), 1);
    assert_eq!(added[0].0.output_id, id(0));
    assert_eq!(added[0].1, None);
}

#[test]
fn issuer_failure_names_issuer() {
    let a = key(1);
    let mut selection = InputSelection::new(Vec::new(), Vec::new(), Vec::new(), 100);
    assert_eq!(
        selection.fulfill_issuer_requirement(a).unwrap_err(),
        Error::UnfulfillableRequirement(Requirement::Issuer(a))
    );
    let alias_address = Address::Alias(AliasId(5, 5));
    assert_eq!(
        selection.fulfill_issuer_requirement(alias_address).unwrap_err(),
        Error::UnfulfillableRequirement(Requirement::Issuer(alias_address))
    );
}

#[test]
fn alias_requirement_failure_names_alias() {
    let alias_id = AliasId(5, 5);
    let mut selection = InputSelection::new(Vec::new(), vec![basic(0, key(1))], Vec::new(), 100);
    assert_eq!(
        selection.fulfill_alias_requirement(alias_id, AliasTransition::Governance).unwrap_err(),
        Error::UnfulfillableRequirement(Requirement::Alias(alias_id, AliasTransition::Governance))
    );
}

#[test]
fn alias_requirement_tags_requested_transition() {
    let alias_id = AliasId(5, 5);
    let mut selection =
        InputSelection::new(Vec::new(), vec![alias(0, alias_id, key(1), key(2))], Vec::new(), 100);
    let added = selection.fulfill_alias_requirement(alias_id, AliasTransition::Governance).unwrap();
    assert_eq!(added.len(), 1);
    assert_eq!(added[0].1, Some(AliasTransition::Governance));
}

#[test]
fn nft_requirement_failure_names_nft() {
    let nft_id = NftId(6, 6);
    let mut selection = InputSelection::new(Vec::new(), Vec::new(), Vec::new(), 100);
    assert_eq!(
        selection.fulfill_nft_requirement(nft_id).unwrap_err(),
        Error::UnfulfillableRequirement(Requirement::Nft(nft_id))
    );
}

#[test]
fn foundry_requirement_selects_matching_foundry() {
    let alias_id = AliasId(5, 5);
    let wanted = FoundryId { alias_id, serial_number: 2 };
    let mut selection = InputSelection::new(
        Vec::new(),
        vec![foundry(0, alias_id, 1), foundry(1, AliasId(6, 6), 2), foundry(2, alias_id, 2)],
        Vec::new(),
        100,
    );
    let added = selection.fulfill_foundry_requirement(wanted).unwrap();
    assert_eq!(added.len(), 1);
    assert_eq!(added[0].0.output_id, id(2));
    assert_eq!(ids(&selection.available_inputs), vec![0, 1]);
    assert_eq!(
        selection.fulfill_foundry_requirement(FoundryId { alias_id, serial_number: 9 }).unwrap_err(),
        Error::UnfulfillableRequirement(Requirement::Foundry(FoundryId { alias_id, serial_number: 9 }))
    );
}

#[test]
fn expired_output_is_unlocked_by_return_address() {
    let owner = key(1);
    let back = key(2);
    let mut input = basic(0, owner);
    if let Output::Basic(o) = &mut input.output {
        o.unlock_conditions.expiration = Some(ExpirationUnlockCondition { return_address: back, timestamp: 50 });
    }
    assert_eq!(input.output.required_and_unlocked_address(49, None), (owner, None));
    assert_eq!(input.output.required_and_unlocked_address(50, None), (back, None));

    let mut late = InputSelection::new(Vec::new(), vec![input], Vec::new(), 60);
    assert_eq!(
        late.fulfill_sender_requirement(owner).unwrap_err(),
        Error::UnfulfillableRequirement(Requirement::Sender(owner))
    );
    assert_eq!(late.fulfill_sender_requirement(back).unwrap().len(), 1);
}

#[test]
fn required_and_unlocked_address_by_kind() {
    let alias_id = AliasId(5, 5);
    let a = alias(0, alias_id, key(1), key(2));
    assert_eq!(a.output.required_and_unlocked_address(0, None), (key(1), Some(Address::Alias(alias_id))));
    assert_eq!(
        a.output.required_and_unlocked_address(0, Some(AliasTransition::State)),
        (key(1), Some(Address::Alias(alias_id)))
    );
    assert_eq!(a.output.required_and_unlocked_address(0, Some(AliasTransition::Governance)), (key(2), None));
    let n = nft(1, NftId(6, 6), key(3));
    assert_eq!(n.output.required_and_unlocked_address(0, None), (key(3), Some(Address::Nft(NftId(6, 6)))));
    let f = foundry(2, alias_id, 1);
    assert_eq!(f.output.required_and_unlocked_address(0, None), (Address::Alias(alias_id), None));
}

#[test]
fn alias_transition_follows_outputs() {
    let alias_id = AliasId(5, 5);
    let input = alias(0, alias_id, key(1), key(2));
    assert_eq!(is_alias_transition(&basic(1, key(1)), &[]), None);
    // Not among the outputs: destroyed, by its governor.
    assert_eq!(is_alias_transition(&input, &[]), Some(AliasTransition::Governance));
    let same_state = Output::Alias(alias_output(alias_id, 3, key(1), key(2)));
    let next_state = Output::Alias(alias_output(alias_id, 4, key(1), key(2)));
    let other = Output::Alias(alias_output(AliasId(6, 6), 3, key(1), key(2)));
    assert_eq!(is_alias_transition(&input, &[other.clone(), same_state]), Some(AliasTransition::Governance));
    assert_eq!(is_alias_transition(&input, &[other, next_state]), Some(AliasTransition::State));
}

#[test]
fn selected_alias_unlocks_under_its_transition() {
    let alias_id = AliasId(5, 5);
    let outputs = vec![Output::Alias(alias_output(alias_id, 4, key(1), key(2)))];
    // The outputs state-transition the selected alias: its state controller unlocks.
    let mut selection = InputSelection::new(vec![alias(0, alias_id, key(1), key(2))], vec![basic(1, key(1))], outputs, 100);
    assert!(selection.fulfill_sender_requirement(key(1)).unwrap().is_empty());
    let added = selection.fulfill_sender_requirement(key(2)).unwrap_err();
    assert_eq!(added, Error::UnfulfillableRequirement(Requirement::Sender(key(2))));
}

#[test]
fn run_keeps_pools_disjoint_and_records_transitions() {
    let a = key(1);
    let alias_id = AliasId(5, 5);
    let mut selection = InputSelection::new(
        vec![basic(0, key(9))],
        vec![basic(1, key(3)), alias(2, alias_id, key(4), a), nft(3, NftId(6, 6), key(5)), basic(4, a)],
        Vec::new(),
        100,
    );
    let requirements = vec![
        Requirement::Alias(alias_id, AliasTransition::Governance),
        Requirement::Sender(a),
        Requirement::Nft(NftId(6, 6)),
        Requirement::Sender(key(9)),
    ];
    assert_eq!(selection.fulfill_requirements(&requirements), Ok(()));
    let selected = ids(&selection.selected_inputs);
    let available = ids(&selection.available_inputs);
    assert_eq!(selected, vec![0, 2, 3]);
    assert!(selected.iter().all(|s| !available.contains(s)));
    let mut all: Vec<u16> = selected.iter().chain(available.iter()).copied().collect();
    all.sort();
    assert_eq!(all, vec![0, 1, 2, 3, 4]);
    assert_eq!(selection.alias_transitions, vec![(id(2), AliasTransition::Governance)]);
}

#[test]
fn run_stops_at_first_unfulfillable_requirement() {
    let selection = InputSelection::new(Vec::new(), vec![basic(0, key(1)), basic(1, key(2))], Vec::new(), 100);
    let requirements = vec![
        Requirement::Sender(key(1)),
        Requirement::Sender(Address::Nft(NftId(6, 6))),
        Requirement::Sender(key(2)),
    ];
    assert_eq!(
        selection.select(&requirements).err(),
        Some(Error::UnfulfillableRequirement(Requirement::Sender(Address::Nft(NftId(6, 6)))))
    );
}

#[test]
fn select_hands_over_selected_inputs() {
    let a = key(1);
    let selection = InputSelection::new(
        Vec::new(),
        vec![alias(0, AliasId(5, 5), a, key(2)), basic(1, key(3))],
        Vec::new(),
        100,
    );
    let done = selection.select(&vec![Requirement::Sender(a)]).unwrap();
    assert_eq!(ids(&done.inputs), vec![0]);
    assert_eq!(done.alias_transitions, vec![(id(0), AliasTransition::State)]);
}

#[test]
fn amount_already_covered_adds_nothing() {
    let mut selection =
        InputSelection::new(vec![basic_holding(0, key(1), 500)], vec![basic_holding(1, key(1), 700)], Vec::new(), 100);
    assert!(selection.fulfill_amount_requirement(500).unwrap().is_empty());
    assert_eq!(ids(&selection.available_inputs), vec![1]);
}

#[test]
fn amount_takes_shortest_prefix_in_order() {
    let mut selection = InputSelection::new(
        vec![basic_holding(0, key(1), 100)],
        vec![basic_holding(1, key(1), 300), basic_holding(2, key(2), 200), basic_holding(3, key(1), 900)],
        Vec::new(),
        100,
    );
    let added = selection.fulfill_amount_requirement(600).unwrap();
    assert_eq!(added.iter().map(|(i, _)| i.output_id.index).collect::<Vec<u16>>(), vec![1, 2]);
    assert!(added.iter().all(|(_, t)| t.is_none()));
    assert_eq!(ids(&selection.available_inputs), vec![3]);
}

#[test]
fn amount_beyond_both_pools_is_unfulfillable() {
    let mut selection = InputSelection::new(
        vec![basic_holding(0, key(1), 100)],
        vec![basic_holding(1, key(1), 300)],
        Vec::new(),
        100,
    );
    assert_eq!(
        selection.fulfill_amount_requirement(401).unwrap_err(),
        Error::UnfulfillableRequirement(Requirement::Amount(401))
    );
    assert_eq!(ids(&selection.available_inputs), vec![1]);
    assert_eq!(selection.fulfill_amount_requirement(400).unwrap().len(), 1);
}

#[test]
fn amount_of_largest_value_is_reached() {
    let mut selection = InputSelection::new(
        Vec::new(),
        vec![basic_holding(0, key(1), u64::MAX), basic_holding(1, key(1), u64::MAX)],
        Vec::new(),
        100,
    );
    assert_eq!(selection.fulfill_amount_requirement(u64::MAX).unwrap().len(), 1);
    assert_eq!(ids(&selection.available_inputs), vec![1]);
}

#[test]
fn run_moves_every_input_an_amount_takes() {
    let selection = InputSelection::new(
        Vec::new(),
        vec![basic_holding(0, key(1), 10), alias(1, AliasId(5, 5), key(2), key(3)), basic_holding(2, key(4), 10)],
        Vec::new(),
        100,
    );
    let done = selection
        .select(&vec![Requirement::Amount(1_000_010), Requirement::Sender(key(4))])
        .unwrap();
    assert_eq!(ids(&done.inputs), vec![0, 1, 2]);
    assert!(done.alias_transitions.is_empty());
}

#[test]
fn native_tokens_take_shortest_prefix() {
    let t1 = TokenId(1, 1);
    let mut selection = InputSelection::new(
        Vec::new(),
        vec![basic_with_tokens(0, vec![(1, 5)]), basic_with_tokens(1, vec![(2, 7), (1, 10)]), basic_with_tokens(2, vec![(1, 1)])],
        Vec::new(),
        100,
    );
    let added = selection.fulfill_native_token_requirement(t1, 12).unwrap();
    assert_eq!(added.iter().map(|(i, _)| i.output_id.index).collect::<Vec<u16>>(), vec![0, 1]);
    assert_eq!(ids(&selection.available_inputs), vec![2]);

    let mut run = InputSelection::new(
        Vec::new(),
        vec![basic_with_tokens(0, vec![(1, 5)]), basic_with_tokens(1, vec![(2, 7), (1, 10)]), basic_with_tokens(2, vec![(1, 1)])],
        Vec::new(),
        100,
    );
    let requirements = vec![Requirement::NativeToken(t1, 12), Requirement::NativeToken(t1, 15)];
    assert_eq!(run.fulfill_requirements(&requirements), Ok(()));
    assert_eq!(ids(&run.selected_inputs), vec![0, 1]);
    assert_eq!(ids(&run.available_inputs), vec![2]);
}

#[test]
fn native_tokens_short_of_target_fail_naming_token() {
    let t2 = TokenId(2, 2);
    let mut selection = InputSelection::new(
        vec![basic_with_tokens(0, vec![(2, 3)])],
        vec![basic_with_tokens(1, vec![(2, 4)]), basic_with_tokens(2, vec![(1, 50)])],
        Vec::new(),
        100,
    );
    assert_eq!(
        selection.fulfill_native_token_requirement(t2, 8).unwrap_err(),
        Error::UnfulfillableRequirement(Requirement::NativeToken(t2, 8))
    );
    assert_eq!(ids(&selection.available_inputs), vec![1, 2]);
    assert_eq!(selection.fulfill_native_token_requirement(t2, 7).unwrap().len(), 1);
}

#[test]
fn native_tokens_of_largest_amount_do_not_overflow() {
    let t1 = TokenId(1, 1);
    let mut selection = InputSelection::new(
        vec![basic_with_tokens(0, vec![(1, u128::MAX - 1)])],
        vec![basic_with_tokens(1, vec![(1, u128::MAX)]), basic_with_tokens(2, vec![(1, u128::MAX)])],
        Vec::new(),
        100,
    );
    assert_eq!(selection.fulfill_native_token_requirement(t1, u128::MAX).unwrap().len(), 1);
    assert_eq!(ids(&selection.available_inputs), vec![2]);
}

#[test]
fn zero_amount_is_always_met() {
    let mut selection = InputSelection::new(Vec::new(), Vec::new(), Vec::new(), 100);
    assert!(selection.fulfill_amount_requirement(0).unwrap().is_empty());
    assert!(selection.fulfill_native_token_requirement(TokenId(1, 1), 0).unwrap().is_empty());
}
