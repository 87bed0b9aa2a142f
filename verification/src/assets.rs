//! The fungible asset registry: assets with an owner, a total supply and
//! optional metadata, and the commands that create, mint, burn and transfer
//! them.
use std::collections::HashMap;
use vstd::prelude::*;
use crate::allocator::{saturating_successor, IdAllocator};
use crate::ledger::{amount_of, capped_sum, distinct_keys, floored_difference, moved_between};
use crate::ledger::{lemma_amount_bounded, lemma_transfer_conserves, put, smaller, total_of};
use crate::ledger::{deposit, same_elsewhere, withdraw, Holding, Ledger};
use crate::{AccountId, AssetId};

verus! {

/// The record of one fungible asset.
#[derive(Clone, Copy, Debug, PartialEq, Eq)]
pub struct AssetDetails {
    /// The account that may mint the asset and set its metadata.
    pub owner: AccountId,
    /// The quantity issued and not yet burned.
    pub supply: u128,
}

impl AssetDetails {
    /// The record of a newly created asset: nothing issued yet.
    pub fn new(owner: AccountId) -> (details: AssetDetails)
        ensures
            details == (AssetDetails { owner, supply: 0 }),
    {
        AssetDetails { owner, supply: 0 }
    }

    /// Raises the supply by `amount`, stopping at the largest quantity, and
    /// returns what it was raised by.
    pub fn mint(&mut self, amount: u128) -> (minted: u128)
        ensures
            final(self).owner == old(self).owner,
            final(self).supply == capped_sum(old(self).supply, amount),
            minted == final(self).supply - old(self).supply,
    {
        let before = self.supply;
        self.supply = before.saturating_add(amount);
        self.supply - before
    }

    /// Lowers the supply by `burned`, stopping at zero.
    pub fn burn(&mut self, burned: u128)
        ensures
            final(self).owner == old(self).owner,
            final(self).supply == floored_difference(old(self).supply, burned),
    {
        self.supply = self.supply.saturating_sub(burned);
    }
}

/// The guard of `burn` and `transfer` on a record as read: hands the record
/// back where the asset exists.
pub fn check_exists(details: Option<AssetDetails>) -> (outcome: Result<AssetDetails, Error>)
    ensures
        outcome == match details {
            None => Err::<AssetDetails, Error>(Error::Unknown),
            Some(d) => Ok::<AssetDetails, Error>(d),
        },
{
    match details {
        None => Err(Error::Unknown),
        Some(d) => Ok(d),
    }
}

/// The ownership guard on a record as read: hands the record back where the
/// asset exists and `account` is its recorded owner.
pub fn check_owner(details: Option<AssetDetails>, account: AccountId) -> (outcome: Result<
    AssetDetails,
    Error,
>)
    ensures
        outcome == match details {
            None => Err::<AssetDetails, Error>(Error::Unknown),
            Some(d) => if d.owner != account {
                Err::<AssetDetails, Error>(Error::NoPermission)
            } else {
                Ok::<AssetDetails, Error>(d)
            },
        },
{
    match details {
        None => Err(Error::Unknown),
        Some(d) => {
            if d.owner == account {
                Ok(d)
            } else {
                Err(Error::NoPermission)
            }
        },
    }
}

/// Name and symbol of an asset, both opaque byte strings.
#[derive(Debug, PartialEq, Eq)]
pub struct AssetMetadata {
    pub name: Vec<u8>,
    pub symbol: Vec<u8>,
}

/// The bytes of an [`AssetMetadata`].
pub struct MetadataView {
    pub name: Seq<u8>,
    pub symbol: Seq<u8>,
}

impl View for AssetMetadata {
    type V = MetadataView;

    open spec fn view(&self) -> MetadataView {
        MetadataView { name: self.name@, symbol: self.symbol@ }
    }
}

impl AssetMetadata {
    pub fn new(name: Vec<u8>, symbol: Vec<u8>) -> (metadata: AssetMetadata)
        ensures
            metadata == (AssetMetadata { name, symbol }),
    {
        AssetMetadata { name, symbol }
    }
}

/// What a successful command reports.
#[derive(Debug, PartialEq, Eq)]
pub enum Event {
    /// New asset created
    Created { owner: AccountId, asset_id: AssetId },
    /// New metadata has been set for an asset
    MetadataSet { asset_id: AssetId, name: Vec<u8>, symbol: Vec<u8> },
    /// Some assets have been minted
    Minted { asset_id: AssetId, owner: AccountId, total_supply: u128 },
    /// Some assets have been burned
    Burned { asset_id: AssetId, owner: AccountId, total_supply: u128 },
    /// Some assets have been transferred
    Transferred { asset_id: AssetId, from: AccountId, to: AccountId, amount: u128 },
}

/// Why a command was refused. A refused command changes nothing.
#[derive(Clone, Copy, Debug, PartialEq, Eq)]
pub enum Error {
    /// The asset ID is unknown
    Unknown,
    /// The signing account has no permission to do the operation
    NoPermission,
}

/// Everything the registry stores.
pub struct State {
    /// The identifier that the next `create` hands out.
    pub nonce: AssetId,
    /// The record of each asset that exists.
    pub assets: Map<AssetId, AssetDetails>,
    /// The metadata of the assets that have some.
    pub metadata: Map<AssetId, MetadataView>,
    /// The balance ledger.
    pub accounts: Seq<Holding>,
}

impl State {
    /// The quantity of `asset_id` that `account` holds.
    #[verifier::inline]
    pub open spec fn balance(self, asset_id: AssetId, account: AccountId) -> u128 {
        amount_of(self.accounts, asset_id, account)
    }

    /// The sum of all holdings of `asset_id`.
    #[verifier::inline]
    pub open spec fn total(self, asset_id: AssetId) -> nat {
        total_of(self.accounts, asset_id)
    }

    /// The supply of every asset equals the sum of its holdings, nobody holds
    /// anything of an asset that does not exist, and only identifiers that
    /// the allocator has handed out are in use.
    pub open spec fn consistent(self) -> bool {
        forall|id: AssetId|
            #![trigger self.assets.contains_key(id)]
            #![trigger total_of(self.accounts, id)]
            {
                &&& self.assets.contains_key(id) ==> self.assets[id].supply == self.total(id)
                &&& !self.assets.contains_key(id) ==> self.total(id) == 0
                &&& self.assets.contains_key(id) ==> id < self.nonce || self.nonce == u128::MAX
            }
    }
}

/// The fungible asset registry.
pub struct Pallet {
    nonce: IdAllocator,
    assets: HashMap<AssetId, AssetDetails>,
    metadata: HashMap<AssetId, AssetMetadata>,
    accounts: Ledger,
}

impl View for Pallet {
    type V = State;

    closed spec fn view(&self) -> State {
        State {
            nonce: self.nonce@,
            assets: self.assets@,
            metadata: Map::new(
                |id: AssetId| self.metadata@.contains_key(id),
                |id: AssetId| self.metadata@[id]@,
            ),
            accounts: self.accounts@,
        }
    }
}

impl Pallet {
    /// The ledger keeps at most one line per (asset, account) pair.
    pub open spec fn wf(&self) -> bool {
        distinct_keys(self@.accounts)
    }

    /// An empty registry whose first asset will get identifier zero.
    pub fn new() -> (pallet: Pallet)
        ensures
            pallet.wf(),
            pallet@.consistent(),
            pallet@ == (State {
                nonce: 0,
                assets: Map::empty(),
                metadata: Map::empty(),
                accounts: Seq::empty(),
            }),
    {
        Pallet::with_nonce(0)
    }

    /// An empty registry whose first asset will get identifier `nonce`.
    pub fn with_nonce(nonce: AssetId) -> (pallet: Pallet)
        ensures
            pallet.wf(),
            pallet@.consistent(),
            pallet@ == (State {
                nonce,
                assets: Map::empty(),
                metadata: Map::empty(),
                accounts: Seq::empty(),
            }),
    {
        let pallet = Pallet {
            nonce: IdAllocator::starting_at(nonce),
            assets: HashMap::new(),
            metadata: HashMap::new(),
            accounts: Ledger::new(),
        };
        assert(pallet@.metadata =~= Map::empty());
        pallet
    }

    /// The identifier that the next `create` hands out.
    pub fn nonce(&self) -> (nonce: AssetId)
        ensures
            nonce == self@.nonce,
    {
        self.nonce.peek()
    }

    /// The record of an asset, if it exists.
    pub fn asset(&self, asset_id: AssetId) -> (details: Option<AssetDetails>)
        ensures
            details == if self@.assets.contains_key(asset_id) {
                Some(self@.assets[asset_id])
            } else {
                None
            },
    {
        match self.assets.get(&asset_id) {
            Some(details) => Some(*details),
            None => None,
        }
    }

    /// The quantity of an asset that an account holds; zero where it never
    /// held any.
    pub fn account(&self, asset_id: AssetId, account: AccountId) -> (balance: u128)
        requires
            self.wf(),
        ensures
            balance == self@.balance(asset_id, account),
    {
        self.accounts.get(asset_id, account)
    }

    /// The metadata of an asset, if any was set.
    pub fn metadata(&self, asset_id: AssetId) -> (metadata: Option<&AssetMetadata>)
        ensures
            match metadata {
                Some(m) => self@.metadata.contains_key(asset_id) && m@ == self@.metadata[asset_id],
                None => !self@.metadata.contains_key(asset_id),
            },
    {
        self.metadata.get(&asset_id)
    }

    /// The ownership guard: passes where the asset exists and `account` is
    /// its recorded owner.
    pub fn ensure_is_owner(
        &self,
        asset_id: AssetId,
        account: AccountId,
    ) -> (outcome: Result<(), Error>)
        ensures
            outcome == if !self@.assets.contains_key(asset_id) {
                Err::<(), Error>(Error::Unknown)
            } else if self@.assets[asset_id].owner != account {
                Err::<(), Error>(Error::NoPermission)
            } else {
                Ok::<(), Error>(())
            },
    {
        match check_owner(self.asset(asset_id), account) {
            Ok(_) => Ok(()),
            Err(error) => Err(error),
        }
    }

    /// Registers a new asset owned by `caller`, with nothing issued. Never
    /// refused. Once the identifiers are used up the largest one is handed
    /// out again, and the record stored under it is replaced.
    pub fn create(&mut self, caller: AccountId) -> (outcome: Result<Event, Error>)
        requires
            old(self).wf(),
        ensures
            final(self).wf(),
            outcome == Ok::<Event, Error>(
                Event::Created { owner: caller, asset_id: old(self)@.nonce },
            ),
            final(self)@ == (State {
                nonce: saturating_successor(old(self)@.nonce),
                assets: old(self)@.assets.insert(
                    old(self)@.nonce,
                    AssetDetails { owner: caller, supply: 0 },
                ),
                ..old(self)@
            }),
            old(self)@.consistent() && !old(self)@.assets.contains_key(old(self)@.nonce)
                ==> final(self)@.consistent(),
            old(self)@.consistent() && old(self)@.nonce < u128::MAX ==> final(self)@.consistent(),
    {
        let id = self.nonce.next_id_saturating();
        let details = AssetDetails::new(caller);
        self.assets.insert(id, details);
        Ok(Event::Created { owner: caller, asset_id: id })
    }

    /// Sets name and symbol of an asset, replacing what was there. Only the
    /// owner of the asset may do so.
    pub fn set_metadata(
        &mut self,
        caller: AccountId,
        asset_id: AssetId,
        name: Vec<u8>,
        symbol: Vec<u8>,
    ) -> (outcome: Result<Event, Error>)
        requires
            old(self).wf(),
        ensures
            final(self).wf(),
            !old(self)@.assets.contains_key(asset_id) ==> outcome == Err::<Event, Error>(
                Error::Unknown,
            ),
            old(self)@.assets.contains_key(asset_id) && old(self)@.assets[asset_id].owner != caller
                ==> outcome == Err::<Event, Error>(Error::NoPermission),
            old(self)@.assets.contains_key(asset_id) && old(self)@.assets[asset_id].owner == caller
                ==> outcome == Ok::<Event, Error>(Event::MetadataSet { asset_id, name, symbol }),
            outcome is Err ==> final(self)@ == old(self)@,
            outcome is Ok ==> final(self)@ == (State {
                metadata: old(self)@.metadata.insert(
                    asset_id,
                    MetadataView { name: name@, symbol: symbol@ },
                ),
                ..old(self)@
            }),
            old(self)@.consistent() ==> final(self)@.consistent(),
    {
        match self.ensure_is_owner(asset_id, caller) {
            Err(error) => {
                return Err(error);
            },
            Ok(()) => {},
        }
        let metadata = AssetMetadata::new(name.clone(), symbol.clone());
        assert(metadata.name@ =~= name@ && metadata.symbol@ =~= symbol@);
        self.metadata.insert(asset_id, metadata);
        assert(self@.metadata =~= old(self)@.metadata.insert(
            asset_id,
            MetadataView { name: name@, symbol: symbol@ },
        ));
        Ok(Event::MetadataSet { asset_id, name, symbol })
    }

    /// Issues `amount` of an asset to `to`. Only the owner of the asset may
    /// do so. The supply grows by `amount`, capped at the largest quantity;
    /// what the supply actually grew by is what `to` receives.
    pub fn mint(
        &mut self,
        caller: AccountId,
        asset_id: AssetId,
        amount: u128,
        to: AccountId,
    ) -> (outcome: Result<Event, Error>)
        requires
            old(self).wf(),
        ensures
            final(self).wf(),
            !old(self)@.assets.contains_key(asset_id) ==> outcome == Err::<Event, Error>(
                Error::Unknown,
            ),
            old(self)@.assets.contains_key(asset_id) && old(self)@.assets[asset_id].owner != caller
                ==> outcome == Err::<Event, Error>(Error::NoPermission),
            outcome is Err ==> final(self)@ == old(self)@,
            old(self)@.assets.contains_key(asset_id) && old(self)@.assets[asset_id].owner == caller
                ==> {
                let before = old(self)@.assets[asset_id].supply;
                let total_supply = capped_sum(before, amount);
                let minted = (total_supply - before) as u128;
                &&& outcome == Ok::<Event, Error>(
                    Event::Minted { asset_id, owner: to, total_supply },
                )
                &&& final(self)@ == (State {
                    assets: old(self)@.assets.insert(
                        asset_id,
                        AssetDetails { owner: caller, supply: total_supply },
                    ),
                    accounts: put(
                        old(self)@.accounts,
                        Holding {
                            asset: asset_id,
                            account: to,
                            amount: capped_sum(old(self)@.balance(asset_id, to), minted),
                        },
                    ),
                    ..old(self)@
                })
                &&& final(self)@.balance(asset_id, to) == capped_sum(
                    old(self)@.balance(asset_id, to),
                    minted,
                )
                &&& old(self)@.consistent() ==> capped_sum(
                    old(self)@.balance(asset_id, to),
                    minted,
                ) == old(self)@.balance(asset_id, to) + minted
            },
            old(self)@.consistent() ==> final(self)@.consistent(),
            same_elsewhere(
                final(self)@.accounts,
                old(self)@.accounts,
                asset_id,
                to,
                to,
            ),
    {
        let mut details = match check_owner(self.asset(asset_id), caller) {
            Ok(details) => details,
            Err(error) => {
                return Err(error);
            },
        };
        let minted = details.mint(amount);
        let total_supply = details.supply;
        self.assets.insert(asset_id, details);
        let balance = self.accounts.get(asset_id, to);
        proof {
            lemma_amount_bounded(self@.accounts, asset_id, to);
        }
        self.accounts.insert(asset_id, to, deposit(balance, minted));
        proof {
            if old(self)@.consistent() {
                assert forall|id: AssetId| id != asset_id implies {
                    &&& total_of(self@.accounts, id) == total_of(old(self)@.accounts, id)
                    &&& self@.assets.contains_key(id) == old(self)@.assets.contains_key(id)
                } by {}
                assert(old(self)@.assets.contains_key(asset_id));
                assert(total_of(self@.accounts, asset_id) == self@.assets[asset_id].supply);
            }
        }
        Ok(Event::Minted { asset_id, owner: to, total_supply })
    }

    /// Destroys up to `amount` of what `caller` holds of an asset. Anyone may
    /// burn from their own holding. A caller who holds less than `amount`
    /// burns all they hold; the supply shrinks by what was burned, and never
    /// below zero.
    pub fn burn(
        &mut self,
        caller: AccountId,
        asset_id: AssetId,
        amount: u128,
    ) -> (outcome: Result<Event, Error>)
        requires
            old(self).wf(),
        ensures
            final(self).wf(),
            !old(self)@.assets.contains_key(asset_id) ==> outcome == Err::<Event, Error>(
                Error::Unknown,
            ) && final(self)@ == old(self)@,
            old(self)@.assets.contains_key(asset_id) ==> {
                let details = old(self)@.assets[asset_id];
                let balance = old(self)@.balance(asset_id, caller);
                let burned = smaller(amount, balance);
                let total_supply = floored_difference(details.supply, burned);
                &&& outcome == Ok::<Event, Error>(
                    Event::Burned { asset_id, owner: caller, total_supply },
                )
                &&& final(self)@ == (State {
                    assets: old(self)@.assets.insert(
                        asset_id,
                        AssetDetails { owner: details.owner, supply: total_supply },
                    ),
                    accounts: put(
                        old(self)@.accounts,
                        Holding {
                            asset: asset_id,
                            account: caller,
                            amount: (balance - burned) as u128,
                        },
                    ),
                    ..old(self)@
                })
                &&& final(self)@.balance(asset_id, caller) == balance - burned
                &&& old(self)@.consistent() ==> total_supply == details.supply - burned
            },
            old(self)@.consistent() ==> final(self)@.consistent(),
            same_elsewhere(
                final(self)@.accounts,
                old(self)@.accounts,
                asset_id,
                caller,
                caller,
            ),
    {
        let mut details = match check_exists(self.asset(asset_id)) {
            Ok(details) => details,
            Err(error) => {
                return Err(error);
            },
        };
        let balance = self.accounts.get(asset_id, caller);
        let (remaining, burned) = withdraw(balance, amount);
        proof {
            lemma_amount_bounded(self@.accounts, asset_id, caller);
        }
        self.accounts.insert(asset_id, caller, remaining);
        details.burn(burned);
        let total_supply = details.supply;
        self.assets.insert(asset_id, details);
        proof {
            if old(self)@.consistent() {
                assert forall|id: AssetId| id != asset_id implies {
                    &&& total_of(self@.accounts, id) == total_of(old(self)@.accounts, id)
                    &&& self@.assets.contains_key(id) == old(self)@.assets.contains_key(id)
                } by {}
                assert(old(self)@.assets.contains_key(asset_id));
                assert(total_of(self@.accounts, asset_id) == self@.assets[asset_id].supply);
            }
        }
        Ok(Event::Burned { asset_id, owner: caller, total_supply })
    }

    /// Moves up to `amount` of an asset from `caller` to `to`. Anyone may
    /// transfer from their own holding. A caller who holds less than `amount`
    /// moves all they hold. The event reports the amount asked for, which may
    /// be more than what moved.
    pub fn transfer(
        &mut self,
        caller: AccountId,
        asset_id: AssetId,
        amount: u128,
        to: AccountId,
    ) -> (outcome: Result<Event, Error>)
        requires
            old(self).wf(),
        ensures
            final(self).wf(),
            !old(self)@.assets.contains_key(asset_id) ==> outcome == Err::<Event, Error>(
                Error::Unknown,
            ) && final(self)@ == old(self)@,
            old(self)@.assets.contains_key(asset_id) ==> {
                &&& outcome == Ok::<Event, Error>(
                    Event::Transferred { asset_id, from: caller, to, amount },
                )
                &&& final(self)@ == (State {
                    accounts: moved_between(old(self)@.accounts, asset_id, caller, to, amount),
                    ..old(self)@
                })
            },
            old(self)@.consistent() && old(self)@.assets.contains_key(asset_id) && caller != to
                ==> {
                let moved = smaller(amount, old(self)@.balance(asset_id, caller));
                &&& final(self)@.balance(asset_id, caller) == old(self)@.balance(asset_id, caller)
                    - moved
                &&& final(self)@.balance(asset_id, to) == old(self)@.balance(asset_id, to) + moved
            },
            old(self)@.consistent() ==> {
                final(self)@.balance(asset_id, caller) + final(self)@.balance(asset_id, to)
                    == old(self)@.balance(asset_id, caller) + old(self)@.balance(asset_id, to)
            },
            old(self)@.consistent() ==> final(self)@.consistent(),
            same_elsewhere(final(self)@.accounts, old(self)@.accounts, asset_id, caller, to),
    {
        match check_exists(self.asset(asset_id)) {
            Ok(_) => {},
            Err(error) => {
                return Err(error);
            },
        }
        proof {
            if self@.consistent() {
                assert(self@.assets[asset_id].supply == self@.total(asset_id));
                lemma_transfer_conserves(self@.accounts, asset_id, caller, to, amount);
            }
        }
        let balance = self.accounts.get(asset_id, caller);
        let (remaining, moved) = withdraw(balance, amount);
        self.accounts.insert(asset_id, caller, remaining);
        let received = self.accounts.get(asset_id, to);
        self.accounts.insert(asset_id, to, deposit(received, moved));
        Ok(Event::Transferred { asset_id, from: caller, to, amount })
    }
}

} // verus!
