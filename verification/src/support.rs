//! What a marketplace asks of a registry whose resources it sells.
use vstd::prelude::*;

verus! {

/// A registry of resources that accounts own in quantities and can hand to
/// one another.
pub trait Sellable<AccountId, RessourceId> {
    /// The quantity of resource `id` that `account` owns.
    fn amount_owned(id: RessourceId, account: AccountId) -> u128;

    /// Moves up to `amount` of resource `id` from `from` to `to` and returns
    /// the quantity moved.
    fn transfer(id: RessourceId, from: AccountId, to: AccountId, amount: u128) -> u128;
}

} // verus!
