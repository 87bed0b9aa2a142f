use asset_ledger::assets::{check_exists, check_owner};
use asset_ledger::assets::{AssetDetails, AssetMetadata, Error, Event, Pallet};

const ALICE: u64 = 1;
const BOB: u64 = 2;
const CAROL: u64 = 3;

#[test]
fn scenario_create_mint_transfer_burn() {
    let mut pallet = Pallet::new();
    assert_eq!(pallet.create(ALICE), Ok(Event::Created { owner: ALICE, asset_id: 0 }));
    assert_eq!(pallet.asset(0), Some(AssetDetails { owner: ALICE, supply: 0 }));

    assert_eq!(
        pallet.mint(ALICE, 0, 100, ALICE),
        Ok(Event::Minted { asset_id: 0, owner: ALICE, total_supply: 100 })
    );
    assert_eq!(pallet.asset(0).unwrap().supply, 100);
    assert_eq!(pallet.account(0, ALICE), 100);

    assert_eq!(
        pallet.transfer(ALICE, 0, 40, BOB),
        Ok(Event::Transferred { asset_id: 0, from: ALICE, to: BOB, amount: 40 })
    );
    assert_eq!(pallet.account(0, ALICE), 60);
    assert_eq!(pallet.account(0, BOB), 40);

    assert_eq!(
        pallet.burn(ALICE, 0, 30),
        Ok(Event::Burned { asset_id: 0, owner: ALICE, total_supply: 70 })
    );
    assert_eq!(pallet.account(0, ALICE), 30);
    assert_eq!(pallet.asset(0).unwrap().supply, 70);
}

#[test]
fn create_hands_out_increasing_ids() {
    let mut pallet = Pallet::new();
    assert_eq!(pallet.nonce(), 0);
    assert_eq!(pallet.create(ALICE), Ok(Event::Created { owner: ALICE, asset_id: 0 }));
    assert_eq!(pallet.create(BOB), Ok(Event::Created { owner: BOB, asset_id: 1 }));
    assert_eq!(pallet.create(ALICE), Ok(Event::Created { owner: ALICE, asset_id: 2 }));
    assert_eq!(pallet.nonce(), 3);
    assert_eq!(pallet.asset(1), Some(AssetDetails { owner: BOB, supply: 0 }));
    assert_eq!(pallet.asset(3), None);
}

#[test]
fn create_at_the_largest_id_hands_it_out_again() {
    let mut pallet = Pallet::with_nonce(u128::MAX);
    assert_eq!(pallet.create(ALICE), Ok(Event::Created { owner: ALICE, asset_id: u128::MAX }));
    assert_eq!(pallet.nonce(), u128::MAX);
    assert_eq!(pallet.create(BOB), Ok(Event::Created { owner: BOB, asset_id: u128::MAX }));
    assert_eq!(pallet.asset(u128::MAX), Some(AssetDetails { owner: BOB, supply: 0 }));
}

#[test]
fn set_metadata_is_for_the_owner_only() {
    let mut pallet = Pallet::new();
    pallet.create(ALICE).unwrap();
    assert_eq!(pallet.metadata(0), None);
    assert_eq!(
        pallet.set_metadata(BOB, 0, b"Coin".to_vec(), b"CN".to_vec()),
        Err(Error::NoPermission)
    );
    assert_eq!(pallet.metadata(0), None);
    assert_eq!(
        pallet.set_metadata(ALICE, 7, b"Coin".to_vec(), b"CN".to_vec()),
        Err(Error::Unknown)
    );
    assert_eq!(
        pallet.set_metadata(ALICE, 0, b"Coin".to_vec(), b"CN".to_vec()),
        Ok(Event::MetadataSet { asset_id: 0, name: b"Coin".to_vec(), symbol: b"CN".to_vec() })
    );
    assert_eq!(
        pallet.metadata(0),
        Some(&AssetMetadata { name: b"Coin".to_vec(), symbol: b"CN".to_vec() })
    );
}

#[test]
fn set_metadata_overwrites_and_leaves_the_record_alone() {
    let mut pallet = Pallet::new();
    pallet.create(ALICE).unwrap();
    pallet.mint(ALICE, 0, 5, BOB).unwrap();
    pallet.set_metadata(ALICE, 0, b"Coin".to_vec(), b"CN".to_vec()).unwrap();
    pallet.set_metadata(ALICE, 0, b"Token".to_vec(), Vec::new()).unwrap();
    assert_eq!(
        pallet.metadata(0),
        Some(&AssetMetadata::new(b"Token".to_vec(), Vec::new()))
    );
    assert_eq!(pallet.asset(0), Some(AssetDetails { owner: ALICE, supply: 5 }));
    assert_eq!(pallet.account(0, BOB), 5);
}

#[test]
fn mint_is_for_the_owner_only() {
    let mut pallet = Pallet::new();
    pallet.create(ALICE).unwrap();
    assert_eq!(pallet.mint(BOB, 0, 10, BOB), Err(Error::NoPermission));
    assert_eq!(pallet.mint(ALICE, 1, 10, ALICE), Err(Error::Unknown));
    assert_eq!(pallet.asset(0).unwrap().supply, 0);
    assert_eq!(pallet.account(0, BOB), 0);
    assert_eq!(
        pallet.mint(ALICE, 0, 10, BOB),
        Ok(Event::Minted { asset_id: 0, owner: BOB, total_supply: 10 })
    );
    assert_eq!(pallet.account(0, BOB), 10);
    assert_eq!(pallet.account(0, ALICE), 0);
}

#[test]
fn mint_credits_what_the_capped_supply_grew_by() {
    let mut pallet = Pallet::new();
    pallet.create(ALICE).unwrap();
    pallet.mint(ALICE, 0, u128::MAX - 10, ALICE).unwrap();
    assert_eq!(
        pallet.mint(ALICE, 0, 25, BOB),
        Ok(Event::Minted { asset_id: 0, owner: BOB, total_supply: u128::MAX })
    );
    assert_eq!(pallet.account(0, BOB), 10);
    assert_eq!(pallet.account(0, ALICE), u128::MAX - 10);
    assert_eq!(
        pallet.mint(ALICE, 0, 1, CAROL),
        Ok(Event::Minted { asset_id: 0, owner: CAROL, total_supply: u128::MAX })
    );
    assert_eq!(pallet.account(0, CAROL), 0);
}

#[test]
fn burn_needs_no_ownership_and_takes_at_most_the_balance() {
    let mut pallet = Pallet::new();
    pallet.create(ALICE).unwrap();
    pallet.mint(ALICE, 0, 100, BOB).unwrap();
    assert_eq!(
        pallet.burn(BOB, 0, 500),
        Ok(Event::Burned { asset_id: 0, owner: BOB, total_supply: 0 })
    );
    assert_eq!(pallet.account(0, BOB), 0);
    assert_eq!(pallet.asset(0).unwrap().supply, 0);
}

#[test]
fn burn_by_an_account_that_holds_nothing_changes_nothing() {
    let mut pallet = Pallet::new();
    pallet.create(ALICE).unwrap();
    pallet.mint(ALICE, 0, 100, ALICE).unwrap();
    assert_eq!(
        pallet.burn(CAROL, 0, 10),
        Ok(Event::Burned { asset_id: 0, owner: CAROL, total_supply: 100 })
    );
    assert_eq!(pallet.account(0, ALICE), 100);
    assert_eq!(pallet.account(0, CAROL), 0);
}

#[test]
fn burn_of_an_unknown_asset_is_refused() {
    let mut pallet = Pallet::new();
    assert_eq!(pallet.burn(ALICE, 0, 1), Err(Error::Unknown));
    pallet.create(ALICE).unwrap();
    assert_eq!(pallet.burn(ALICE, 1, 1), Err(Error::Unknown));
}

#[test]
fn burn_floors_the_supply_where_plain_subtraction_would_underflow() {
    // Once the identifiers are used up, `create` replaces the record of the
    // largest id while its balances stay: the one state in which a holder can
    // burn more than the recorded supply.
    let mut pallet = Pallet::with_nonce(u128::MAX);
    pallet.create(ALICE).unwrap();
    pallet.mint(ALICE, u128::MAX, 100, ALICE).unwrap();
    pallet.create(BOB).unwrap();
    assert_eq!(pallet.asset(u128::MAX), Some(AssetDetails { owner: BOB, supply: 0 }));
    assert_eq!(pallet.account(u128::MAX, ALICE), 100);
    assert_eq!(
        pallet.burn(ALICE, u128::MAX, 30),
        Ok(Event::Burned { asset_id: u128::MAX, owner: ALICE, total_supply: 0 })
    );
    assert_eq!(pallet.account(u128::MAX, ALICE), 70);
    assert_eq!(pallet.asset(u128::MAX).unwrap().supply, 0);
}

#[test]
fn transfer_moves_at_most_the_balance_and_reports_the_amount_asked() {
    let mut pallet = Pallet::new();
    pallet.create(ALICE).unwrap();
    pallet.mint(ALICE, 0, 60, ALICE).unwrap();
    pallet.mint(ALICE, 0, 5, BOB).unwrap();
    assert_eq!(
        pallet.transfer(ALICE, 0, 100, BOB),
        Ok(Event::Transferred { asset_id: 0, from: ALICE, to: BOB, amount: 100 })
    );
    assert_eq!(pallet.account(0, ALICE), 0);
    assert_eq!(pallet.account(0, BOB), 65);
    assert_eq!(pallet.asset(0).unwrap().supply, 65);
}

#[test]
fn transfer_keeps_the_sum_of_the_two_balances() {
    let mut pallet = Pallet::new();
    pallet.create(ALICE).unwrap();
    pallet.mint(ALICE, 0, 70, ALICE).unwrap();
    pallet.mint(ALICE, 0, 30, BOB).unwrap();
    for amount in [0u128, 1, 69, 70, 71, u128::MAX] {
        let before = pallet.account(0, ALICE) + pallet.account(0, BOB);
        let held = pallet.account(0, ALICE);
        let moved = amount.min(held);
        let received = pallet.account(0, BOB);
        pallet.transfer(ALICE, 0, amount, BOB).unwrap();
        assert_eq!(pallet.account(0, ALICE), held - moved);
        assert_eq!(pallet.account(0, BOB), received + moved);
        assert_eq!(pallet.account(0, ALICE) + pallet.account(0, BOB), before);
        pallet.transfer(BOB, 0, 70, ALICE).unwrap();
    }
}

#[test]
fn transfer_to_oneself_changes_nothing() {
    let mut pallet = Pallet::new();
    pallet.create(ALICE).unwrap();
    pallet.mint(ALICE, 0, 50, ALICE).unwrap();
    assert_eq!(
        pallet.transfer(ALICE, 0, 20, ALICE),
        Ok(Event::Transferred { asset_id: 0, from: ALICE, to: ALICE, amount: 20 })
    );
    assert_eq!(pallet.account(0, ALICE), 50);
    pallet.transfer(ALICE, 0, 80, ALICE).unwrap();
    assert_eq!(pallet.account(0, ALICE), 50);
}

#[test]
fn transfer_of_an_unknown_asset_is_refused() {
    let mut pallet = Pallet::new();
    pallet.create(ALICE).unwrap();
    pallet.mint(ALICE, 0, 50, ALICE).unwrap();
    assert_eq!(pallet.transfer(ALICE, 1, 10, BOB), Err(Error::Unknown));
    assert_eq!(pallet.account(0, ALICE), 50);
    assert_eq!(pallet.account(1, BOB), 0);
}

#[test]
fn supply_equals_the_sum_of_the_balances_after_every_command() {
    let mut pallet = Pallet::new();
    let holders = [ALICE, BOB, CAROL];
    let sum = |pallet: &Pallet, id: u128| -> u128 {
        holders.iter().map(|who| pallet.account(id, *who)).sum()
    };
    pallet.create(ALICE).unwrap();
    pallet.create(BOB).unwrap();
    assert_eq!(sum(&pallet, 0), 0);
    pallet.mint(ALICE, 0, 100, ALICE).unwrap();
    assert_eq!(pallet.asset(0).unwrap().supply, sum(&pallet, 0));
    pallet.mint(BOB, 1, 9, CAROL).unwrap();
    assert_eq!(pallet.asset(1).unwrap().supply, sum(&pallet, 1));
    pallet.transfer(ALICE, 0, 40, BOB).unwrap();
    assert_eq!(pallet.asset(0).unwrap().supply, sum(&pallet, 0));
    pallet.transfer(BOB, 0, 400, CAROL).unwrap();
    assert_eq!(pallet.asset(0).unwrap().supply, sum(&pallet, 0));
    pallet.burn(CAROL, 0, 15).unwrap();
    assert_eq!(pallet.asset(0).unwrap().supply, 85);
    assert_eq!(pallet.asset(0).unwrap().supply, sum(&pallet, 0));
    pallet.burn(ALICE, 0, 1000).unwrap();
    assert_eq!(pallet.asset(0).unwrap().supply, 25);
    assert_eq!(pallet.asset(0).unwrap().supply, sum(&pallet, 0));
    pallet.set_metadata(BOB, 1, b"n".to_vec(), b"s".to_vec()).unwrap();
    assert_eq!(pallet.asset(1).unwrap().supply, sum(&pallet, 1));
    assert_eq!(sum(&pallet, 1), 9);
}

#[test]
fn balances_of_different_assets_are_kept_apart() {
    let mut pallet = Pallet::new();
    pallet.create(ALICE).unwrap();
    pallet.create(ALICE).unwrap();
    pallet.mint(ALICE, 0, 10, BOB).unwrap();
    pallet.mint(ALICE, 1, 20, BOB).unwrap();
    pallet.burn(BOB, 1, 5).unwrap();
    pallet.transfer(BOB, 0, 4, CAROL).unwrap();
    assert_eq!(pallet.account(0, BOB), 6);
    assert_eq!(pallet.account(1, BOB), 15);
    assert_eq!(pallet.account(0, CAROL), 4);
    assert_eq!(pallet.account(1, CAROL), 0);
}

#[test]
fn ownership_guard_tells_unknown_from_no_permission() {
    let mut pallet = Pallet::new();
    pallet.create(ALICE).unwrap();
    assert_eq!(pallet.ensure_is_owner(0, ALICE), Ok(()));
    assert_eq!(pallet.ensure_is_owner(0, BOB), Err(Error::NoPermission));
    assert_eq!(pallet.ensure_is_owner(1, ALICE), Err(Error::Unknown));

    let details = AssetDetails { owner: ALICE, supply: 3 };
    assert_eq!(check_owner(Some(details), ALICE), Ok(details));
    assert_eq!(check_owner(Some(details), BOB), Err(Error::NoPermission));
    assert_eq!(check_owner(None, ALICE), Err(Error::Unknown));
}

#[test]
fn details_mint_and_burn_are_capped_and_floored() {
    let mut details = AssetDetails::new(ALICE);
    assert_eq!(details, AssetDetails { owner: ALICE, supply: 0 });
    assert_eq!(details.mint(40), 40);
    assert_eq!(details.supply, 40);
    assert_eq!(details.mint(u128::MAX), u128::MAX - 40);
    assert_eq!(details.supply, u128::MAX);
    assert_eq!(details.mint(1), 0);
    details.burn(u128::MAX - 7);
    assert_eq!(details.supply, 7);
    details.burn(8);
    assert_eq!(details, AssetDetails { owner: ALICE, supply: 0 });
}

#[test]
fn existence_guard_hands_the_record_back() {
    let details = AssetDetails { owner: BOB, supply: 12 };
    assert_eq!(check_exists(Some(details)), Ok(details));
    assert_eq!(check_exists(None), Err(Error::Unknown));
}
