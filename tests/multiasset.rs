use rmrk::multiasset::Data;
use rmrk::types::{AccountId, AssetId, RmrkError, TokenId};

fn alice() -> AccountId {
    AccountId([1; 32])
}

fn bob() -> AccountId {
    AccountId([2; 32])
}

const ASSET_URI: &str = "asset_uri/";

fn add_entry(ledger: &mut Data, id: AssetId) -> Result<(), RmrkError> {
    ledger.add_asset_entry(&alice(), &alice(), id, 1, 0, String::from(ASSET_URI), vec![])
}

#[test]
fn add_asset_entry_works() {
    const ASSET_ID: AssetId = 1;
    let mut rmrk = Data::new();
    assert!(add_entry(&mut rmrk, ASSET_ID).is_ok());
    assert_eq!(rmrk.total_assets(), 1);
    assert_eq!(rmrk.get_asset_uri(ASSET_ID), Some(String::from(ASSET_URI)));
    assert_eq!(rmrk.get_asset_uri(42), None);

    // reject adding asset with same asset_id
    assert_eq!(add_entry(&mut rmrk, ASSET_ID), Err(RmrkError::AssetIdAlreadyExists));
}

#[test]
fn add_asset_to_token_works() {
    const ASSET_ID: AssetId = 1;
    let token_id1 = TokenId::U64(1);
    let token_id2 = TokenId::U64(2);
    // token 1 belongs to alice, token 2 to bob, token 3 does not exist
    let owner1 = Some(alice());
    let owner2 = Some(bob());

    let mut rmrk = Data::new();
    assert!(add_entry(&mut rmrk, ASSET_ID).is_ok());
    assert_eq!(rmrk.total_assets(), 1);

    // the owner adds an asset to her token: accepted without approval
    assert!(rmrk.add_asset_to_token(&alice(), token_id1.clone(), owner1, ASSET_ID, None).is_ok());
    assert_eq!(rmrk.total_token_assets(&token_id1, owner1), Ok((1, 0)));

    // error cases
    assert_eq!(
        rmrk.add_asset_to_token(&alice(), token_id1.clone(), owner1, ASSET_ID, None),
        Err(RmrkError::AlreadyAddedAsset)
    );
    assert_eq!(
        rmrk.add_asset_to_token(&alice(), token_id1.clone(), owner1, 42, None),
        Err(RmrkError::AssetIdNotFound)
    );

    // Add asset by alice and reject asset by Bob to test asset_reject
    assert!(rmrk.add_asset_to_token(&alice(), token_id2.clone(), owner2, ASSET_ID, None).is_ok());
    assert_eq!(rmrk.total_token_assets(&token_id2, owner2), Ok((0, 1)));
    assert!(rmrk.reject_asset(&bob(), token_id2.clone(), owner2, ASSET_ID).is_ok());
    assert_eq!(rmrk.total_token_assets(&token_id2, owner2), Ok((0, 0)));

    // Add asset by alice and accept asset by Bob, to test accept_asset
    assert!(rmrk.add_asset_to_token(&alice(), token_id2.clone(), owner2, ASSET_ID, None).is_ok());
    assert_eq!(rmrk.total_token_assets(&token_id2, owner2), Ok((0, 1)));
    assert!(rmrk.accept_asset(&bob(), token_id2.clone(), owner2, ASSET_ID).is_ok());
    assert_eq!(rmrk.total_token_assets(&token_id2, owner2), Ok((1, 0)));
    assert_eq!(rmrk.get_accepted_token_assets(&token_id2, owner2), Ok(Some(vec![1])));

    // Try adding asset to not minted token fails
    assert_eq!(
        rmrk.add_asset_to_token(&alice(), TokenId::U64(3), None, ASSET_ID, None),
        Err(RmrkError::TokenNotExists)
    );

    // Try removing not added asset fails
    assert_eq!(
        rmrk.remove_asset(&alice(), token_id2.clone(), owner2, 42),
        Err(RmrkError::AssetIdNotFound)
    );

    // Try removing asset for not minted token fails
    assert_eq!(
        rmrk.remove_asset(&alice(), TokenId::U64(3), None, ASSET_ID),
        Err(RmrkError::TokenNotExists)
    );

    // Try removing asset by collection owner fails
    assert_eq!(
        rmrk.remove_asset(&alice(), token_id2.clone(), owner2, ASSET_ID),
        Err(RmrkError::NotAuthorised)
    );

    // Remove accepted asset
    assert!(rmrk.remove_asset(&bob(), token_id2.clone(), owner2, ASSET_ID).is_ok());
    assert_eq!(rmrk.get_accepted_token_assets(&token_id2, owner2), Ok(Some(vec![])));
    assert_eq!(rmrk.total_token_assets(&token_id2, owner2), Ok((0, 0)));
}

#[test]
fn set_asset_priority_works() {
    const ASSET_ID1: AssetId = 1;
    const ASSET_ID2: AssetId = 100;
    let token_id1 = TokenId::U64(1);
    let owner1 = Some(alice());

    let mut rmrk = Data::new();
    assert!(add_entry(&mut rmrk, ASSET_ID1).is_ok());
    assert!(add_entry(&mut rmrk, ASSET_ID2).is_ok());
    assert_eq!(rmrk.total_assets(), 2);

    // add two assets to the token of its owner: accepted without approval
    assert!(rmrk.add_asset_to_token(&alice(), token_id1.clone(), owner1, ASSET_ID1, None).is_ok());
    assert!(rmrk.add_asset_to_token(&alice(), token_id1.clone(), owner1, ASSET_ID2, None).is_ok());
    assert_eq!(rmrk.total_token_assets(&token_id1, owner1), Ok((2, 0)));
    assert_eq!(
        rmrk.get_accepted_token_assets(&token_id1, owner1),
        Ok(Some(vec![ASSET_ID1, ASSET_ID2]))
    );
    assert!(rmrk.set_priority(&alice(), token_id1.clone(), owner1, vec![ASSET_ID2, ASSET_ID1]).is_ok());
    assert_eq!(
        rmrk.get_accepted_token_assets(&token_id1, owner1),
        Ok(Some(vec![ASSET_ID2, ASSET_ID1]))
    );

    // error cases
    assert_eq!(
        rmrk.set_priority(&alice(), token_id1.clone(), owner1, vec![ASSET_ID2]),
        Err(RmrkError::BadPriorityLength)
    );
    assert_eq!(
        rmrk.set_priority(&alice(), token_id1.clone(), owner1, vec![ASSET_ID2, 42]),
        Err(RmrkError::AssetIdNotFound)
    );
}

fn ledger_with_two_accepted() -> Data {
    let mut rmrk = Data::new();
    assert!(add_entry(&mut rmrk, 1).is_ok());
    assert!(add_entry(&mut rmrk, 2).is_ok());
    assert!(rmrk.add_asset_to_token(&alice(), TokenId::U64(7), Some(alice()), 1, None).is_ok());
    assert!(rmrk.add_asset_to_token(&alice(), TokenId::U64(7), Some(alice()), 2, None).is_ok());
    rmrk
}

#[test]
fn set_priority_reorders_exactly() {
    let mut rmrk = ledger_with_two_accepted();
    let token = TokenId::U64(7);
    let owner = Some(alice());
    assert_eq!(rmrk.set_priority(&alice(), token.clone(), owner, vec![2, 1]), Ok(()));
    assert_eq!(rmrk.get_accepted_token_assets(&token, owner), Ok(Some(vec![2, 1])));
    assert_eq!(rmrk.total_token_assets(&token, owner), Ok((2, 0)));
}

#[test]
fn set_priority_refuses_bad_orders_without_change() {
    let mut rmrk = ledger_with_two_accepted();
    let token = TokenId::U64(7);
    let owner = Some(alice());
    assert_eq!(rmrk.set_priority(&alice(), token.clone(), owner, vec![2]), Err(RmrkError::BadPriorityLength));
    assert_eq!(rmrk.set_priority(&alice(), token.clone(), owner, vec![2, 99]), Err(RmrkError::AssetIdNotFound));
    // a repeated asset leaves the other one out
    assert_eq!(rmrk.set_priority(&alice(), token.clone(), owner, vec![2, 2]), Err(RmrkError::BadPriorityLength));
    assert_eq!(rmrk.set_priority(&bob(), token.clone(), owner, vec![2, 1]), Err(RmrkError::NotAuthorised));
    assert_eq!(rmrk.set_priority(&alice(), token.clone(), None, vec![2, 1]), Err(RmrkError::TokenNotExists));
    assert_eq!(rmrk.get_accepted_token_assets(&token, owner), Ok(Some(vec![1, 2])));
}

#[test]
fn set_priority_on_token_without_assets() {
    let mut rmrk = ledger_with_two_accepted();
    let token = TokenId::U64(8);
    let owner = Some(alice());
    assert_eq!(rmrk.set_priority(&alice(), token.clone(), owner, vec![1]), Err(RmrkError::BadPriorityLength));
    assert_eq!(rmrk.get_accepted_token_assets(&token, owner), Ok(None));
    assert_eq!(rmrk.set_priority(&alice(), token.clone(), owner, vec![]), Ok(()));
    assert_eq!(rmrk.get_accepted_token_assets(&token, owner), Ok(Some(vec![])));
}

#[test]
fn total_assets_counts_each_registration() {
    let mut rmrk = Data::new();
    assert_eq!(rmrk.total_assets(), 0);
    assert_eq!(add_entry(&mut rmrk, 5), Ok(()));
    assert_eq!(rmrk.total_assets(), 1);
    assert_eq!(add_entry(&mut rmrk, 6), Ok(()));
    assert_eq!(rmrk.total_assets(), 2);
    assert_eq!(add_entry(&mut rmrk, 5), Err(RmrkError::AssetIdAlreadyExists));
    assert_eq!(rmrk.total_assets(), 2);
}

#[test]
fn only_collection_owner_registers_assets() {
    let mut rmrk = Data::new();
    assert_eq!(
        rmrk.add_asset_entry(&bob(), &alice(), 1, 1, 0, String::from(ASSET_URI), vec![3, 4]),
        Err(RmrkError::CallerIsNotOwner)
    );
    assert_eq!(rmrk.total_assets(), 0);
    assert_eq!(
        rmrk.add_asset_entry(&alice(), &alice(), 1, 1, 0, String::from("ipfs://a"), vec![3, 4]),
        Ok(())
    );
    assert_eq!(rmrk.get_asset_uri(1), Some(String::from("ipfs://a")));
}

#[test]
fn end_to_end_asset_workflow() {
    let mut rmrk = Data::new();
    let token1 = TokenId::U64(1);
    let token2 = TokenId::U64(2);
    let owner1 = Some(alice());
    let owner2 = Some(bob());
    assert_eq!(add_entry(&mut rmrk, 1), Ok(()));

    // caller owns token 1: accepted at once
    assert_eq!(rmrk.add_asset_to_token(&alice(), token1.clone(), owner1, 1, None), Ok(()));
    assert_eq!(rmrk.get_accepted_token_assets(&token1, owner1), Ok(Some(vec![1])));
    assert_eq!(rmrk.total_token_assets(&token1, owner1), Ok((1, 0)));
    // a second add, by anyone, is a duplicate
    assert_eq!(
        rmrk.add_asset_to_token(&bob(), token1.clone(), owner1, 1, None),
        Err(RmrkError::AlreadyAddedAsset)
    );

    // alice does not own token 2: pending
    assert_eq!(rmrk.add_asset_to_token(&alice(), token2.clone(), owner2, 1, None), Ok(()));
    assert_eq!(rmrk.total_token_assets(&token2, owner2), Ok((0, 1)));
    assert_eq!(
        rmrk.add_asset_to_token(&alice(), token2.clone(), owner2, 1, None),
        Err(RmrkError::AddingPendingAsset)
    );
    // only bob may accept
    assert_eq!(rmrk.accept_asset(&alice(), token2.clone(), owner2, 1), Err(RmrkError::NotAuthorised));
    assert_eq!(rmrk.accept_asset(&bob(), token2.clone(), owner2, 1), Ok(()));
    assert_eq!(rmrk.total_token_assets(&token2, owner2), Ok((1, 0)));
    assert_eq!(rmrk.remove_asset(&bob(), token2.clone(), owner2, 1), Ok(()));
    assert_eq!(rmrk.get_accepted_token_assets(&token2, owner2), Ok(Some(vec![])));
    assert_eq!(rmrk.total_token_assets(&token2, owner2), Ok((0, 0)));
}

#[test]
fn pending_steps_need_a_pending_asset() {
    let mut rmrk = Data::new();
    let token = TokenId::U64(4);
    let owner = Some(bob());
    assert_eq!(add_entry(&mut rmrk, 1), Ok(()));
    assert_eq!(add_entry(&mut rmrk, 2), Ok(()));
    // the token has no pending list yet
    assert_eq!(rmrk.accept_asset(&bob(), token.clone(), owner, 1), Err(RmrkError::InvalidAssetId));
    assert_eq!(rmrk.reject_asset(&bob(), token.clone(), owner, 1), Err(RmrkError::InvalidAssetId));
    assert_eq!(rmrk.remove_asset(&bob(), token.clone(), owner, 1), Err(RmrkError::InvalidAssetId));
    assert_eq!(rmrk.accept_asset(&bob(), token.clone(), None, 1), Err(RmrkError::TokenNotExists));
    assert_eq!(rmrk.add_asset_to_token(&alice(), token.clone(), owner, 1, None), Ok(()));
    // pending list holds asset 1 only
    assert_eq!(rmrk.accept_asset(&bob(), token.clone(), owner, 2), Err(RmrkError::AssetIdNotFound));
    assert_eq!(rmrk.reject_asset(&alice(), token.clone(), owner, 1), Err(RmrkError::NotAuthorised));
    assert_eq!(rmrk.total_token_assets(&token, owner), Ok((0, 1)));
    assert_eq!(rmrk.total_token_assets(&token, None), Err(RmrkError::TokenNotExists));
    assert_eq!(rmrk.get_accepted_token_assets(&token, None), Err(RmrkError::TokenNotExists));
    assert_eq!(rmrk.get_accepted_token_assets(&token, owner), Ok(None));
}

#[test]
fn accepted_asset_leaves_pending() {
    let mut rmrk = Data::new();
    let token = TokenId::Bytes(vec![0xde, 0xad]);
    let owner = Some(bob());
    assert_eq!(add_entry(&mut rmrk, 1), Ok(()));
    assert_eq!(add_entry(&mut rmrk, 2), Ok(()));
    assert_eq!(rmrk.add_asset_to_token(&alice(), token.clone(), owner, 1, None), Ok(()));
    assert_eq!(rmrk.add_asset_to_token(&alice(), token.clone(), owner, 2, Some(1)), Ok(()));
    assert_eq!(rmrk.accept_asset(&bob(), TokenId::Bytes(vec![0xde, 0xad]), owner, 2), Ok(()));
    assert_eq!(rmrk.total_token_assets(&token, owner), Ok((1, 1)));
    assert_eq!(rmrk.get_accepted_token_assets(&token, owner), Ok(Some(vec![2])));
    // once accepted, the asset is no longer pending
    assert_eq!(rmrk.reject_asset(&bob(), token.clone(), owner, 2), Err(RmrkError::AssetIdNotFound));
    assert_eq!(rmrk.add_asset_to_token(&alice(), token.clone(), owner, 2, None), Err(RmrkError::AlreadyAddedAsset));
}
