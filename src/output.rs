use vstd::prelude::*;
use crate::address::{Address, AliasId, NftId};

verus! {

/// The 256-bit identifier of a native token, as its high and low halves.
#[derive(Clone, Copy, Debug, PartialEq, Eq, Structural)]
pub struct TokenId(pub u128, pub u128);

/// An amount of one native token held by an output.
#[derive(Clone, Copy, Debug, PartialEq, Eq, Structural)]
pub struct NativeToken {
    pub token_id: TokenId,
    pub amount: u128,
}

/// After `timestamp`, the output is controlled by `return_address` instead of its owner.
#[derive(Clone, Copy, Debug, PartialEq, Eq, Structural)]
pub struct ExpirationUnlockCondition {
    pub return_address: Address,
    pub timestamp: u32,
}

/// Whoever consumes the output must send `amount` back to `return_address`.
#[derive(Clone, Copy, Debug, PartialEq, Eq, Structural)]
pub struct StorageDepositReturnUnlockCondition {
    pub return_address: Address,
    pub amount: u64,
}

/// The unlock conditions an output may carry. Which ones an output must carry
/// depends on its kind (see `Output::addressable`).
#[derive(Clone, Copy, Debug, PartialEq, Eq, Structural)]
pub struct UnlockConditions {
    pub address: Option<Address>,
    pub state_controller_address: Option<Address>,
    pub governor_address: Option<Address>,
    pub immutable_alias_address: Option<AliasId>,
    pub expiration: Option<ExpirationUnlockCondition>,
    pub timelock: Option<u32>,
    pub storage_deposit_return: Option<StorageDepositReturnUnlockCondition>,
}

/// The optional features of an output.
#[derive(Clone, Debug)]
pub struct Features {
    pub sender: Option<Address>,
    pub issuer: Option<Address>,
    pub metadata: Option<Vec<u8>>,
    pub tag: Option<Vec<u8>>,
}

#[derive(Clone, Debug)]
pub struct BasicOutput {
    pub amount: u64,
    pub native_tokens: Vec<NativeToken>,
    pub unlock_conditions: UnlockConditions,
    pub features: Features,
}

#[derive(Clone, Debug)]
pub struct AliasOutput {
    pub amount: u64,
    pub native_tokens: Vec<NativeToken>,
    /// The alias's resolved identifier. An alias created by the transaction
    /// that made this output has its identifier derived from the output's id;
    /// the field must already hold that derived value, never a null one.
    pub alias_id: AliasId,
    pub state_index: u32,
    pub foundry_counter: u32,
    pub unlock_conditions: UnlockConditions,
    pub features: Features,
}

#[derive(Clone, Debug)]
pub struct NftOutput {
    pub amount: u64,
    pub native_tokens: Vec<NativeToken>,
    /// The NFT's resolved identifier. An NFT minted by the transaction that
    /// made this output has its identifier derived from the output's id; the
    /// field must already hold that derived value, never a null one.
    pub nft_id: NftId,
    pub unlock_conditions: UnlockConditions,
    pub features: Features,
}

#[derive(Clone, Debug)]
pub struct FoundryOutput {
    pub amount: u64,
    pub native_tokens: Vec<NativeToken>,
    pub serial_number: u32,
    pub unlock_conditions: UnlockConditions,
    pub features: Features,
}

#[derive(Clone, Debug)]
pub struct TreasuryOutput {
    pub amount: u64,
}

/// A ledger output.
#[derive(Clone, Debug)]
pub enum Output {
    Basic(BasicOutput),
    Alias(AliasOutput),
    Nft(NftOutput),
    Foundry(FoundryOutput),
    Treasury(TreasuryOutput),
}

/// Which controller of an alias output is exercised when it is consumed.
#[derive(Clone, Copy, Debug, PartialEq, Eq, Structural)]
pub enum AliasTransition {
    /// The state controller: general spending authority.
    State,
    /// The governor: control-only authority.
    Governance,
}

/// The address an output is locked to at time `t`: the owner, or the return
/// address of an expiration condition whose time has come.
pub open spec fn locked_address(uc: UnlockConditions, t: u32) -> Address {
    match uc.expiration {
        Some(e) => if t >= e.timestamp { e.return_address } else { uc.address.unwrap() },
        None => uc.address.unwrap(),
    }
}

impl Output {
    /// The output carries the unlock conditions its kind needs to name an
    /// address that controls it. Treasury outputs never do.
    pub open spec fn addressable(self) -> bool {
        match self {
            Output::Basic(o) => o.unlock_conditions.address is Some,
            Output::Nft(o) => o.unlock_conditions.address is Some,
            Output::Alias(o) => {
                &&& o.unlock_conditions.state_controller_address is Some
                &&& o.unlock_conditions.governor_address is Some
            },
            Output::Foundry(o) => o.unlock_conditions.immutable_alias_address is Some,
            Output::Treasury(_) => false,
        }
    }

    /// The address that must authorize spending the output at time `t`; for
    /// an alias output, the one that `transition` exercises (State by default).
    pub open spec fn required_address(self, t: u32, transition: Option<AliasTransition>) -> Address {
        match self {
            Output::Basic(o) => locked_address(o.unlock_conditions, t),
            Output::Nft(o) => locked_address(o.unlock_conditions, t),
            Output::Alias(o) => if transition == Some(AliasTransition::Governance) {
                o.unlock_conditions.governor_address.unwrap()
            } else {
                o.unlock_conditions.state_controller_address.unwrap()
            },
            Output::Foundry(o) => Address::Alias(o.unlock_conditions.immutable_alias_address.unwrap()),
            Output::Treasury(_) => arbitrary(),
        }
    }

    /// The address that spending the output unlocks in turn, if any: an NFT's
    /// own address, or an alias's own address under a state transition.
    pub open spec fn unlocked_address(self, transition: Option<AliasTransition>) -> Option<Address> {
        match self {
            Output::Nft(o) => Some(Address::Nft(o.nft_id)),
            Output::Alias(o) => if transition == Some(AliasTransition::Governance) {
                None
            } else {
                Some(Address::Alias(o.alias_id))
            },
            _ => None,
        }
    }

    /// The base-token amount the output holds.
    pub open spec fn amount_of(self) -> nat {
        match self {
            Output::Basic(o) => o.amount as nat,
            Output::Alias(o) => o.amount as nat,
            Output::Nft(o) => o.amount as nat,
            Output::Foundry(o) => o.amount as nat,
            Output::Treasury(o) => o.amount as nat,
        }
    }

    pub fn amount(&self) -> (r: u64)
        ensures
            r as nat == self.amount_of(),
    {
        match self {
            Output::Basic(o) => o.amount,
            Output::Alias(o) => o.amount,
            Output::Nft(o) => o.amount,
            Output::Foundry(o) => o.amount,
            Output::Treasury(o) => o.amount,
        }
    }

    pub fn is_basic(&self) -> (r: bool)
        ensures
            r == (*self is Basic),
    {
        matches!(self, Output::Basic(_))
    }

    pub fn is_alias(&self) -> (r: bool)
        ensures
            r == (*self is Alias),
    {
        matches!(self, Output::Alias(_))
    }

    /// The address that must authorize spending the output at `timestamp`,
    /// and the address that spending it unlocks in turn.
    pub fn required_and_unlocked_address(
        &self,
        timestamp: u32,
        transition: Option<AliasTransition>,
    ) -> (r: (Address, Option<Address>))
        requires
            self.addressable(),
        ensures
            r.0 == self.required_address(timestamp, transition),
            r.1 == self.unlocked_address(transition),
    {
        match self {
            Output::Basic(o) => (unlocked_by_time(&o.unlock_conditions, timestamp), None),
            Output::Nft(o) => (
                unlocked_by_time(&o.unlock_conditions, timestamp),
                Some(Address::Nft(o.nft_id)),
            ),
            Output::Alias(o) => {
                let governance = match transition {
                    Some(AliasTransition::Governance) => true,
                    _ => false,
                };
                if governance {
                    (o.unlock_conditions.governor_address.unwrap(), None)
                } else {
                    (
                        o.unlock_conditions.state_controller_address.unwrap(),
                        Some(Address::Alias(o.alias_id)),
                    )
                }
            },
            Output::Foundry(o) => (
                Address::Alias(o.unlock_conditions.immutable_alias_address.unwrap()),
                None,
            ),
            Output::Treasury(_) => unreached(),
        }
    }
}

fn unlocked_by_time(uc: &UnlockConditions, timestamp: u32) -> (r: Address)
    requires
        uc.address is Some,
    ensures
        r == locked_address(*uc, timestamp),
{
    match &uc.expiration {
        Some(e) => if timestamp >= e.timestamp {
            e.return_address
        } else {
            uc.address.unwrap()
        },
        None => uc.address.unwrap(),
    }
}

} // verus!
