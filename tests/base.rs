use rmrk::base::{BaseData, Part, PartType};
use rmrk::types::{AccountId, PartId, RmrkError};

fn alice() -> AccountId {
    AccountId([1; 32])
}

fn bob() -> AccountId {
    AccountId([2; 32])
}

fn part(part_type: PartType, equippable: Vec<AccountId>, uri: &str, by_all: bool) -> Part {
    Part { part_type, z: 0, equippable, metadata_uri: String::from(uri), is_equippable_by_all: by_all }
}

#[test]
fn add_parts_to_base_works() {
    const EQUIPABLE_ADDRESS1: [u8; 32] = [1; 32];
    const EQUIPABLE_ADDRESS2: [u8; 32] = [2; 32];
    const EQUIPABLE_ADDRESS3: [u8; 32] = [3; 32];
    const PART_ID0: PartId = 0;
    const PART_ID1: PartId = 1;
    let part_list = || {
        vec![
            // Background option 1
            part(
                PartType::Slot,
                vec![AccountId(EQUIPABLE_ADDRESS1), AccountId(EQUIPABLE_ADDRESS2)],
                "ipfs://backgrounds/1.svg",
                false,
            ),
            // Background option 2
            part(PartType::Fixed, vec![], "ipfs://backgrounds/2.svg", false),
        ]
    };
    let bad_part_list1 =
        vec![part(PartType::Fixed, vec![AccountId(EQUIPABLE_ADDRESS1)], "ipfs://backgrounds/2.svg", false)];
    let bad_part_list2 = vec![part(PartType::Fixed, vec![], "ipfs://backgrounds/2.svg", true)];

    let mut rmrk = BaseData::new();
    let owner = alice();

    // verify add/get parts
    assert!(rmrk.get_parts_count() == 0);
    assert!(rmrk.add_part_list(&owner, &owner, part_list()).is_ok());
    assert_eq!(rmrk.get_parts_count(), part_list().len() as u32);
    assert_eq!(rmrk.get_part(0).unwrap().z, part_list()[0].z);
    assert_eq!(rmrk.get_part(0).unwrap().metadata_uri, part_list()[0].metadata_uri);

    // verify array of equippable addresses
    assert!(rmrk.is_equippable(PART_ID0, &AccountId(EQUIPABLE_ADDRESS1)));
    assert!(rmrk.is_equippable(PART_ID0, &AccountId(EQUIPABLE_ADDRESS2)));
    assert!(!rmrk.is_equippable(PART_ID1, &AccountId(EQUIPABLE_ADDRESS2)));

    assert!(!rmrk.is_equippable_by_all(PART_ID0));
    assert!(rmrk.set_equippable_by_all(&owner, &owner, PART_ID0).is_ok());
    assert!(rmrk.is_equippable_by_all(PART_ID0));
    assert!(!rmrk.is_equippable_by_all(42));

    assert!(rmrk.reset_equippable_addresses(&owner, &owner, PART_ID0).is_ok());
    assert!(!rmrk.is_equippable_by_all(PART_ID0));
    assert!(!rmrk.is_equippable(PART_ID0, &AccountId(EQUIPABLE_ADDRESS1)));
    assert!(rmrk
        .add_equippable_addresses(
            &owner,
            &owner,
            PART_ID0,
            vec![AccountId(EQUIPABLE_ADDRESS1), AccountId(EQUIPABLE_ADDRESS2)]
        )
        .is_ok());
    assert!(rmrk.is_equippable(PART_ID0, &AccountId(EQUIPABLE_ADDRESS1)));
    assert_eq!(
        rmrk.add_equippable_addresses(&owner, &owner, PART_ID1, vec![AccountId(EQUIPABLE_ADDRESS1)]),
        Err(RmrkError::PartIsNotSlot)
    );
    assert_eq!(rmrk.reset_equippable_addresses(&owner, &owner, PART_ID1), Err(RmrkError::PartIsNotSlot));
    assert_eq!(rmrk.set_equippable_by_all(&owner, &owner, PART_ID1), Err(RmrkError::PartIsNotSlot));
    assert_eq!(rmrk.add_part_list(&owner, &owner, bad_part_list1), Err(RmrkError::BadConfig));
    assert_eq!(rmrk.add_part_list(&owner, &owner, bad_part_list2), Err(RmrkError::BadConfig));

    assert!(!rmrk.is_equippable(PART_ID0, &AccountId(EQUIPABLE_ADDRESS3)));

    // verify set/get base metadata
    assert_eq!(rmrk.get_base_metadata(), "");
    assert!(rmrk.setup_base(&owner, &owner, String::from("ipfs://base_metadata")).is_ok());
    assert_eq!(rmrk.get_base_metadata(), "ipfs://base_metadata");
}

#[test]
fn bad_batch_commits_nothing() {
    let mut base = BaseData::new();
    let batch = vec![
        part(PartType::Slot, vec![], "ipfs://slot", false),
        part(PartType::Unspecified, vec![], "ipfs://plain", false),
        part(PartType::Fixed, vec![AccountId([5; 32])], "ipfs://fixed", false),
    ];
    assert_eq!(base.add_part_list(&alice(), &alice(), batch), Err(RmrkError::BadConfig));
    assert_eq!(base.get_parts_count(), 0);
    assert!(base.get_part(0).is_none());
}

#[test]
fn parts_get_sequential_ids() {
    let mut base = BaseData::new();
    assert_eq!(base.add_part_list(&alice(), &alice(), vec![part(PartType::Slot, vec![], "a", false)]), Ok(()));
    assert_eq!(
        base.add_part_list(
            &alice(),
            &alice(),
            vec![part(PartType::Fixed, vec![], "b", false), part(PartType::Slot, vec![], "c", true)]
        ),
        Ok(())
    );
    assert_eq!(base.get_parts_count(), 3);
    assert_eq!(base.get_part(1).unwrap().metadata_uri, "b");
    assert_eq!(base.get_part(2).unwrap().part_type, PartType::Slot);
    assert!(base.is_equippable_by_all(2));
    assert!(base.get_part(3).is_none());
    assert_eq!(base.add_part_list(&alice(), &alice(), vec![]), Ok(()));
    assert_eq!(base.get_parts_count(), 3);
}

#[test]
fn equip_list_operations_need_a_slot() {
    let mut base = BaseData::new();
    let owner = alice();
    assert_eq!(
        base.add_part_list(&owner, &owner, vec![part(PartType::Fixed, vec![], "f", false)]),
        Ok(())
    );
    assert_eq!(
        base.add_equippable_addresses(&owner, &owner, 0, vec![AccountId([3; 32])]),
        Err(RmrkError::PartIsNotSlot)
    );
    assert_eq!(base.reset_equippable_addresses(&owner, &owner, 0), Err(RmrkError::PartIsNotSlot));
    assert_eq!(base.set_equippable_by_all(&owner, &owner, 0), Err(RmrkError::PartIsNotSlot));
    assert_eq!(
        base.add_equippable_addresses(&owner, &owner, 9, vec![AccountId([3; 32])]),
        Err(RmrkError::UnknownPartId)
    );
    assert_eq!(base.reset_equippable_addresses(&owner, &owner, 9), Err(RmrkError::UnknownPartId));
    assert_eq!(base.set_equippable_by_all(&owner, &owner, 9), Err(RmrkError::UnknownPartId));
    assert!(base.ensure_only_slot(0).is_err());
    assert!(!base.is_equippable(0, &AccountId([3; 32])));
    assert!(!base.is_equippable(9, &AccountId([3; 32])));
    assert!(!base.is_equippable_by_all(0));
}

#[test]
fn equip_list_operations_on_a_slot() {
    let mut base = BaseData::new();
    let owner = alice();
    let c1 = AccountId([3; 32]);
    let c2 = AccountId([4; 32]);
    assert_eq!(base.add_part_list(&owner, &owner, vec![part(PartType::Slot, vec![c1], "s", false)]), Ok(()));
    assert_eq!(base.ensure_only_slot(0).map(|p| p.metadata_uri.clone()), Ok(String::from("s")));
    // appending keeps what was there, duplicates included
    assert_eq!(base.add_equippable_addresses(&owner, &owner, 0, vec![c2, c1]), Ok(()));
    assert_eq!(base.get_part(0).unwrap().equippable, vec![c1, c2, c1]);
    assert!(base.is_equippable(0, &c1));
    assert!(base.is_equippable(0, &c2));
    assert_eq!(base.set_equippable_by_all(&owner, &owner, 0), Ok(()));
    assert!(base.is_equippable_by_all(0));
    assert!(base.is_equippable(0, &c2));
    assert_eq!(base.reset_equippable_addresses(&owner, &owner, 0), Ok(()));
    assert!(!base.is_equippable_by_all(0));
    assert!(!base.is_equippable(0, &c1));
    assert!(!base.is_equippable(0, &c2));
}

#[test]
fn only_collection_owner_edits_base() {
    let mut base = BaseData::new();
    let owner = alice();
    assert_eq!(
        base.add_part_list(&bob(), &owner, vec![part(PartType::Slot, vec![], "s", false)]),
        Err(RmrkError::CallerIsNotOwner)
    );
    assert_eq!(base.add_part_list(&owner, &owner, vec![part(PartType::Slot, vec![], "s", false)]), Ok(()));
    assert_eq!(base.set_equippable_by_all(&bob(), &owner, 0), Err(RmrkError::CallerIsNotOwner));
    assert_eq!(base.reset_equippable_addresses(&bob(), &owner, 0), Err(RmrkError::CallerIsNotOwner));
    assert_eq!(
        base.add_equippable_addresses(&bob(), &owner, 0, vec![bob()]),
        Err(RmrkError::CallerIsNotOwner)
    );
    assert_eq!(base.setup_base(&bob(), &owner, String::from("x")), Err(RmrkError::CallerIsNotOwner));
    assert_eq!(base.get_base_metadata(), "");
    assert!(!base.is_equippable(0, &bob()));
}
