//! The unique asset registry: assets that their creator mints once, with
//! metadata and a supply that only shrinks, and the commands that mint, burn
//! and transfer them.
use std::collections::HashMap;
use vstd::prelude::*;
use crate::allocator::{IdAllocator, Overflow};
use crate::ledger::{amount_of, distinct_keys, moved_between, put, smaller, total_of};
use crate::ledger::{deposit, floored_difference, same_elsewhere, withdraw, Holding, Ledger};
use crate::ledger::{lemma_amount_bounded, lemma_transfer_conserves};
use crate::{AccountId, AssetId};

verus! {

/// The record of one unique asset.
#[derive(Debug, PartialEq, Eq)]
pub struct UniqueAssetDetails {
    /// The account that minted the asset.
    pub creator: AccountId,
    /// Opaque bytes that describe the asset.
    pub metadata: Vec<u8>,
    /// The quantity minted and not yet burned.
    pub supply: u128,
}

/// A [`UniqueAssetDetails`] with its metadata as plain bytes.
pub struct DetailsView {
    pub creator: AccountId,
    pub metadata: Seq<u8>,
    pub supply: u128,
}

impl View for UniqueAssetDetails {
    type V = DetailsView;

    open spec fn view(&self) -> DetailsView {
        DetailsView { creator: self.creator, metadata: self.metadata@, supply: self.supply }
    }
}

impl UniqueAssetDetails {
    pub fn new(creator: AccountId, metadata: Vec<u8>, supply: u128) -> (details: UniqueAssetDetails)
        ensures
            details == (UniqueAssetDetails { creator, metadata, supply }),
    {
        UniqueAssetDetails { creator, metadata, supply }
    }

    /// Lowers the supply by `burned`, stopping at zero.
    pub fn burn(&mut self, burned: u128)
        ensures
            final(self)@ == (DetailsView {
                supply: floored_difference(old(self).supply, burned),
                ..old(self)@
            }),
    {
        self.supply = self.supply.saturating_sub(burned);
    }
}

/// The first step of `mint`: refuses a supply of zero, then takes the next
/// identifier from the allocator. A refusal leaves the allocator as it was.
pub fn begin_mint(allocator: &mut IdAllocator, supply: u128) -> (outcome: Result<AssetId, Error>)
    ensures
        supply == 0 ==> outcome == Err::<AssetId, Error>(Error::NoSupply),
        supply > 0 && old(allocator)@ == u128::MAX ==> outcome == Err::<AssetId, Error>(
            Error::TypeOverflow,
        ),
        supply > 0 && old(allocator)@ < u128::MAX ==> outcome == Ok::<AssetId, Error>(
            old(allocator)@,
        ),
        outcome is Err ==> final(allocator)@ == old(allocator)@,
        outcome is Ok ==> final(allocator)@ == old(allocator)@ + 1,
{
    if supply == 0 {
        return Err(Error::NoSupply);
    }
    match allocator.next_id_checked() {
        Ok(id) => Ok(id),
        Err(Overflow) => Err(Error::TypeOverflow),
    }
}

/// The guard of `burn` and `transfer` on what was read: passes where the
/// asset exists and the caller holds some of it.
pub fn check_holder(known: bool, balance: u128) -> (outcome: Result<(), Error>)
    ensures
        outcome == if !known {
            Err::<(), Error>(Error::Unknown)
        } else if balance == 0 {
            Err::<(), Error>(Error::NotOwned)
        } else {
            Ok::<(), Error>(())
        },
{
    if !known {
        Err(Error::Unknown)
    } else if balance == 0 {
        Err(Error::NotOwned)
    } else {
        Ok(())
    }
}

/// What a successful command reports.
#[derive(Clone, Copy, Debug, PartialEq, Eq)]
pub enum Event {
    /// New unique asset created
    Created { creator: AccountId, asset_id: AssetId },
    /// Some assets have been burned
    Burned { asset_id: AssetId, owner: AccountId, total_supply: u128 },
    /// Some assets have been transferred
    Transferred { asset_id: AssetId, from: AccountId, to: AccountId, amount: u128 },
}

/// Why a command was refused. A refused command changes nothing.
#[derive(Clone, Copy, Debug, PartialEq, Eq)]
pub enum Error {
    /// The asset ID is unknown
    Unknown,
    /// The signing account does not own any amount of this asset
    NotOwned,
    /// Supply must be positive
    NoSupply,
    /// Type overflow
    TypeOverflow,
}

/// Everything the registry stores.
pub struct State {
    /// The identifier that the next `mint` hands out.
    pub nonce: AssetId,
    /// The record of each asset that exists.
    pub assets: Map<AssetId, DetailsView>,
    /// The balance ledger.
    pub accounts: Seq<Holding>,
}

impl State {
    /// The quantity of `asset_id` that `account` holds.
    #[verifier::inline]
    pub open spec fn balance(self, asset_id: AssetId, account: AccountId) -> u128 {
        amount_of(self.accounts, asset_id, account)
    }

    /// The sum of all holdings of `asset_id`.
    #[verifier::inline]
    pub open spec fn total(self, asset_id: AssetId) -> nat {
        total_of(self.accounts, asset_id)
    }

    /// The supply of every asset equals the sum of its holdings, nobody holds
    /// anything of an asset that does not exist, and the assets that exist
    /// are those whose identifier the allocator has handed out.
    pub open spec fn consistent(self) -> bool {
        forall|id: AssetId|
            #![trigger self.assets.contains_key(id)]
            #![trigger total_of(self.accounts, id)]
            {
                &&& self.assets.contains_key(id) ==> self.assets[id].supply == self.total(id)
                &&& !self.assets.contains_key(id) ==> self.total(id) == 0
                &&& self.assets.contains_key(id) ==> id < self.nonce
            }
    }
}

/// The unique asset registry.
pub struct Pallet {
    nonce: IdAllocator,
    assets: HashMap<AssetId, UniqueAssetDetails>,
    accounts: Ledger,
}

impl View for Pallet {
    type V = State;

    closed spec fn view(&self) -> State {
        State {
            nonce: self.nonce@,
            assets: Map::new(
                |id: AssetId| self.assets@.contains_key(id),
                |id: AssetId| self.assets@[id]@,
            ),
            accounts: self.accounts@,
        }
    }
}

impl Pallet {
    /// The ledger keeps at most one line per (asset, account) pair, and the
    /// supplies agree with the ledger.
    pub open spec fn wf(&self) -> bool {
        distinct_keys(self@.accounts) && self@.consistent()
    }

    /// An empty registry whose first asset will get identifier zero.
    pub fn new() -> (pallet: Pallet)
        ensures
            pallet.wf(),
            pallet@ == (State { nonce: 0, assets: Map::empty(), accounts: Seq::empty() }),
    {
        Pallet::with_nonce(0)
    }

    /// An empty registry whose first asset will get identifier `nonce`.
    pub fn with_nonce(nonce: AssetId) -> (pallet: Pallet)
        ensures
            pallet.wf(),
            pallet@ == (State { nonce, assets: Map::empty(), accounts: Seq::empty() }),
    {
        let pallet = Pallet {
            nonce: IdAllocator::starting_at(nonce),
            assets: HashMap::new(),
            accounts: Ledger::new(),
        };
        assert(pallet@.assets =~= Map::empty());
        pallet
    }

    /// The identifier that the next `mint` hands out.
    pub fn nonce(&self) -> (nonce: AssetId)
        ensures
            nonce == self@.nonce,
    {
        self.nonce.peek()
    }

    /// The record of an asset, if it exists.
    pub fn unique_asset(&self, asset_id: AssetId) -> (details: Option<&UniqueAssetDetails>)
        ensures
            match details {
                Some(d) => self@.assets.contains_key(asset_id) && d@ == self@.assets[asset_id],
                None => !self@.assets.contains_key(asset_id),
            },
    {
        self.assets.get(&asset_id)
    }

    /// The quantity of an asset that an account holds; zero where it never
    /// held any.
    pub fn account(&self, asset_id: AssetId, account: AccountId) -> (balance: u128)
        requires
            self.wf(),
        ensures
            balance == self@.balance(asset_id, account),
    {
        self.accounts.get(asset_id, account)
    }

    /// Registers a new asset created by `caller` and hands the whole supply
    /// to `caller`. Refused where `supply` is zero, and where the identifiers
    /// are used up.
    pub fn mint(
        &mut self,
        caller: AccountId,
        metadata: Vec<u8>,
        supply: u128,
    ) -> (outcome: Result<Event, Error>)
        requires
            old(self).wf(),
        ensures
            final(self).wf(),
            supply == 0 ==> outcome == Err::<Event, Error>(Error::NoSupply),
            supply > 0 && old(self)@.nonce == u128::MAX ==> outcome == Err::<Event, Error>(
                Error::TypeOverflow,
            ),
            outcome is Err ==> final(self)@ == old(self)@,
            supply > 0 && old(self)@.nonce < u128::MAX ==> {
                let asset_id = old(self)@.nonce;
                &&& outcome == Ok::<Event, Error>(Event::Created { creator: caller, asset_id })
                &&& final(self)@ == (State {
                    nonce: (asset_id + 1) as u128,
                    assets: old(self)@.assets.insert(
                        asset_id,
                        DetailsView { creator: caller, metadata: metadata@, supply },
                    ),
                    accounts: put(
                        old(self)@.accounts,
                        Holding { asset: asset_id, account: caller, amount: supply },
                    ),
                })
                &&& final(self)@.balance(asset_id, caller) == supply
            },
            same_elsewhere(
                final(self)@.accounts,
                old(self)@.accounts,
                old(self)@.nonce,
                caller,
                caller,
            ),
    {
        let asset_id = match begin_mint(&mut self.nonce, supply) {
            Ok(id) => id,
            Err(error) => {
                return Err(error);
            },
        };
        let details = UniqueAssetDetails::new(caller, metadata, supply);
        self.assets.insert(asset_id, details);
        proof {
            lemma_amount_bounded(self@.accounts, asset_id, caller);
        }
        self.accounts.insert(asset_id, caller, supply);
        proof {
            assert(self@.assets =~= old(self)@.assets.insert(
                asset_id,
                DetailsView { creator: caller, metadata: metadata@, supply },
            ));
            assert(!old(self)@.assets.contains_key(asset_id));
            assert forall|id: AssetId| id != asset_id implies {
                &&& total_of(self@.accounts, id) == total_of(old(self)@.accounts, id)
                &&& self@.assets.contains_key(id) == old(self)@.assets.contains_key(id)
            } by {}
            assert(total_of(self@.accounts, asset_id) == supply);
        }
        Ok(Event::Created { creator: caller, asset_id })
    }

    /// Lowers the supply in the record of an asset that exists, and returns
    /// the new supply.
    fn reduce_supply(&mut self, asset_id: AssetId, burned: u128) -> (total_supply: u128)
        requires
            old(self)@.assets.contains_key(asset_id),
        ensures
            total_supply == floored_difference(old(self)@.assets[asset_id].supply, burned),
            final(self)@ == (State {
                assets: old(self)@.assets.insert(
                    asset_id,
                    DetailsView { supply: total_supply, ..old(self)@.assets[asset_id] },
                ),
                ..old(self)@
            }),
    {
        let mut total_supply: u128 = 0;
        match self.assets.remove(&asset_id) {
            Some(details) => {
                let mut details = details;
                details.burn(burned);
                total_supply = details.supply;
                self.assets.insert(asset_id, details);
            },
            None => {},
        }
        assert(self@.assets =~= old(self)@.assets.insert(
            asset_id,
            DetailsView { supply: total_supply, ..old(self)@.assets[asset_id] },
        ));
        total_supply
    }

    /// Destroys up to `amount` of what `caller` holds of an asset. A caller
    /// who holds less than `amount` burns all they hold. Balances are those
    /// of the asset named. Refused where the asset does not exist, and where
    /// `caller` holds none of it.
    pub fn burn(
        &mut self,
        caller: AccountId,
        asset_id: AssetId,
        amount: u128,
    ) -> (outcome: Result<Event, Error>)
        requires
            old(self).wf(),
        ensures
            final(self).wf(),
            !old(self)@.assets.contains_key(asset_id) ==> outcome == Err::<Event, Error>(
                Error::Unknown,
            ),
            old(self)@.assets.contains_key(asset_id) && old(self)@.balance(asset_id, caller) == 0
                ==> outcome == Err::<Event, Error>(Error::NotOwned),
            outcome is Err ==> final(self)@ == old(self)@,
            old(self)@.assets.contains_key(asset_id) && old(self)@.balance(asset_id, caller) > 0
                ==> {
                let details = old(self)@.assets[asset_id];
                let balance = old(self)@.balance(asset_id, caller);
                let burned = smaller(amount, balance);
                let total_supply = (details.supply - burned) as u128;
                &&& burned <= details.supply
                &&& outcome == Ok::<Event, Error>(
                    Event::Burned { asset_id, owner: caller, total_supply },
                )
                &&& final(self)@ == (State {
                    assets: old(self)@.assets.insert(
                        asset_id,
                        DetailsView { supply: total_supply, ..details },
                    ),
                    accounts: put(
                        old(self)@.accounts,
                        Holding {
                            asset: asset_id,
                            account: caller,
                            amount: (balance - burned) as u128,
                        },
                    ),
                    ..old(self)@
                })
                &&& final(self)@.balance(asset_id, caller) == balance - burned
            },
            same_elsewhere(
                final(self)@.accounts,
                old(self)@.accounts,
                asset_id,
                caller,
                caller,
            ),
    {
        let balance = self.accounts.get(asset_id, caller);
        match check_holder(self.assets.contains_key(&asset_id), balance) {
            Err(error) => {
                return Err(error);
            },
            Ok(()) => {},
        }
        let (remaining, burned) = withdraw(balance, amount);
        proof {
            lemma_amount_bounded(self@.accounts, asset_id, caller);
        }
        self.accounts.insert(asset_id, caller, remaining);
        let total_supply = self.reduce_supply(asset_id, burned);
        proof {
            assert forall|id: AssetId| id != asset_id implies {
                &&& total_of(self@.accounts, id) == total_of(old(self)@.accounts, id)
                &&& self@.assets.contains_key(id) == old(self)@.assets.contains_key(id)
            } by {}
            assert(total_of(self@.accounts, asset_id) == total_supply);
        }
        Ok(Event::Burned { asset_id, owner: caller, total_supply })
    }

    /// Moves up to `amount` of an asset from `caller` to `to`. A caller who
    /// holds less than `amount` moves all they hold, and the event reports
    /// what moved. Balances are those of the asset named. Refused where the
    /// asset does not exist, and where `caller` holds none of it.
    pub fn transfer(
        &mut self,
        caller: AccountId,
        asset_id: AssetId,
        amount: u128,
        to: AccountId,
    ) -> (outcome: Result<Event, Error>)
        requires
            old(self).wf(),
        ensures
            final(self).wf(),
            !old(self)@.assets.contains_key(asset_id) ==> outcome == Err::<Event, Error>(
                Error::Unknown,
            ),
            old(self)@.assets.contains_key(asset_id) && old(self)@.balance(asset_id, caller) == 0
                ==> outcome == Err::<Event, Error>(Error::NotOwned),
            outcome is Err ==> final(self)@ == old(self)@,
            old(self)@.assets.contains_key(asset_id) && old(self)@.balance(asset_id, caller) > 0
                ==> {
                let moved = smaller(amount, old(self)@.balance(asset_id, caller));
                &&& outcome == Ok::<Event, Error>(
                    Event::Transferred { asset_id, from: caller, to, amount: moved },
                )
                &&& final(self)@ == (State {
                    accounts: moved_between(old(self)@.accounts, asset_id, caller, to, amount),
                    ..old(self)@
                })
                &&& caller != to ==> final(self)@.balance(asset_id, caller) == old(self)@.balance(
                    asset_id,
                    caller,
                ) - moved
                &&& caller != to ==> final(self)@.balance(asset_id, to) == old(self)@.balance(
                    asset_id,
                    to,
                ) + moved
            },
            final(self)@.balance(asset_id, caller) + final(self)@.balance(asset_id, to)
                == old(self)@.balance(asset_id, caller) + old(self)@.balance(asset_id, to),
            same_elsewhere(final(self)@.accounts, old(self)@.accounts, asset_id, caller, to),
    {
        let balance = self.accounts.get(asset_id, caller);
        match check_holder(self.assets.contains_key(&asset_id), balance) {
            Err(error) => {
                return Err(error);
            },
            Ok(()) => {},
        }
        let (remaining, moved) = withdraw(balance, amount);
        proof {
            assert(self@.assets[asset_id].supply == self@.total(asset_id));
            lemma_transfer_conserves(self@.accounts, asset_id, caller, to, amount);
        }
        self.accounts.insert(asset_id, caller, remaining);
        let received = self.accounts.get(asset_id, to);
        self.accounts.insert(asset_id, to, deposit(received, moved));
        Ok(Event::Transferred { asset_id, from: caller, to, amount: moved })
    }
}

} // verus!
