use crudapp::address::derive_address;
use crudapp::errors::EntryError;
use crudapp::keys::Pubkey;
use crudapp::ledger::{CreateEntry, DeleteEntry, Ledger, UpdateEntry};
use crudapp::schema::{ENTRY_DEPOSIT, ENTRY_SPACE};

fn key(b: u8) -> Pubkey {
    Pubkey::new(vec![b; 32])
}

fn funded_ledger(owner: &Pubkey, lamports: u64) -> Ledger {
    let mut l = Ledger::new();
    l.fund(owner.clone(), lamports);
    l
}

fn create(l: &mut Ledger, owner: &Pubkey, title: &str, message: &str) -> Result<(), EntryError> {
    l.create_journal_entry(
        CreateEntry { owner: owner.clone(), signature_valid: true },
        title.to_string(),
        message.to_string(),
    )
}

fn update(
    l: &mut Ledger,
    owner: &Pubkey,
    signer: &Pubkey,
    title: &str,
    message: &str,
) -> Result<(), EntryError> {
    l.update_journal_entry(
        UpdateEntry { owner: owner.clone(), signer: signer.clone(), signature_valid: true },
        title.to_string(),
        message.to_string(),
    )
}

fn delete(l: &mut Ledger, owner: &Pubkey, signer: &Pubkey, title: &str) -> Result<(), EntryError> {
    l.delete_journal_entry(
        DeleteEntry { owner: owner.clone(), signer: signer.clone(), signature_valid: true },
        title.to_string(),
    )
}

#[test]
fn derive_is_deterministic() {
    let owner = key(3);
    let first = derive_address(&"a title".to_string(), &owner).unwrap();
    let second = derive_address(&"a title".to_string(), &owner).unwrap();
    assert_eq!(first.0, second.0);
    assert_eq!(first.1, second.1);
}

#[test]
fn derive_addresses_disjoint_over_corpus() {
    let owner_a = key(1);
    let owner_b = key(2);
    let mut addresses: Vec<Pubkey> = Vec::new();
    for (title, owner) in [
        ("alpha", &owner_a),
        ("beta", &owner_a),
        ("alpha", &owner_b),
        ("beta", &owner_b),
        ("", &owner_a),
    ] {
        let (address, _bump) = derive_address(&title.to_string(), owner).unwrap();
        addresses.push(address);
    }
    for i in 0..addresses.len() {
        for j in 0..addresses.len() {
            if i != j {
                assert_ne!(addresses[i], addresses[j]);
            }
        }
    }
}

#[test]
fn derived_address_is_not_an_input() {
    let owner = key(9);
    let title = "another title".to_string();
    let (address, _bump) = derive_address(&title, &owner).unwrap();
    assert_eq!(address.bytes.len(), 32);
    assert_ne!(address, owner);
    assert_ne!(address.bytes, title.as_bytes().to_vec());
}

#[test]
fn derive_handles_titles_longer_than_one_seed() {
    let owner = key(4);
    let short = "s".repeat(32);
    let long = "s".repeat(33);
    let (short_address, _) = derive_address(&short.to_string(), &owner).unwrap();
    let (long_address, _) = derive_address(&long.to_string(), &owner).unwrap();
    assert_ne!(short_address, long_address);
}

#[test]
fn create_then_create_already_exists() {
    let owner = key(5);
    let mut l = funded_ledger(&owner, 10 * ENTRY_DEPOSIT);
    assert_eq!(create(&mut l, &owner, "diary", "day one"), Ok(()));
    assert_eq!(
        create(&mut l, &owner, "diary", "day two"),
        Err(EntryError::AlreadyExists)
    );
}

#[test]
fn update_never_created_not_found() {
    let owner = key(6);
    let mut l = funded_ledger(&owner, 10 * ENTRY_DEPOSIT);
    assert_eq!(
        update(&mut l, &owner, &owner, "missing", "text"),
        Err(EntryError::NotFound)
    );
}

#[test]
fn delete_never_created_not_found() {
    let owner = key(7);
    let mut l = Ledger::new();
    assert_eq!(delete(&mut l, &owner, &owner, "missing"), Err(EntryError::NotFound));
}

#[test]
fn update_by_other_identity_unauthorized() {
    let owner = key(8);
    let intruder = key(9);
    let mut l = funded_ledger(&owner, 10 * ENTRY_DEPOSIT);
    assert_eq!(create(&mut l, &owner, "diary", "secret"), Ok(()));
    assert_eq!(
        update(&mut l, &owner, &intruder, "diary", "defaced"),
        Err(EntryError::Unauthorized)
    );
    let record = l.read_journal_entry(&"diary".to_string(), &owner).unwrap();
    assert_eq!(record.message, "secret");
    assert_eq!(update(&mut l, &owner, &owner, "diary", "revised"), Ok(()));
}

#[test]
fn delete_by_other_identity_unauthorized() {
    let owner = key(10);
    let intruder = key(11);
    let mut l = funded_ledger(&owner, 10 * ENTRY_DEPOSIT);
    assert_eq!(create(&mut l, &owner, "diary", "text"), Ok(()));
    assert_eq!(
        delete(&mut l, &owner, &intruder, "diary"),
        Err(EntryError::Unauthorized)
    );
    assert_eq!(delete(&mut l, &owner, &owner, "diary"), Ok(()));
}

#[test]
fn invalid_signature_rejected_before_anything_else() {
    let owner = key(12);
    let mut l = funded_ledger(&owner, 10 * ENTRY_DEPOSIT);
    let r = l.create_journal_entry(
        CreateEntry { owner: owner.clone(), signature_valid: false },
        "t".to_string(),
        "m".to_string(),
    );
    assert_eq!(r, Err(EntryError::InvalidSignature));
    let r = l.update_journal_entry(
        UpdateEntry { owner: owner.clone(), signer: owner.clone(), signature_valid: false },
        "t".to_string(),
        "m".to_string(),
    );
    assert_eq!(r, Err(EntryError::InvalidSignature));
    let r = l.delete_journal_entry(
        DeleteEntry { owner: owner.clone(), signer: owner.clone(), signature_valid: false },
        "t".to_string(),
    );
    assert_eq!(r, Err(EntryError::InvalidSignature));
}

#[test]
fn field_bounds_title() {
    let owner = key(13);
    let mut l = funded_ledger(&owner, 10 * ENTRY_DEPOSIT);
    let over = "x".repeat(51);
    assert_eq!(create(&mut l, &owner, &over, "m"), Err(EntryError::FieldTooLong));
    let exact = "x".repeat(50);
    assert_eq!(create(&mut l, &owner, &exact, "m"), Ok(()));
}

#[test]
fn field_bounds_message() {
    let owner = key(14);
    let mut l = funded_ledger(&owner, 10 * ENTRY_DEPOSIT);
    let over = "y".repeat(1001);
    assert_eq!(create(&mut l, &owner, "t", &over), Err(EntryError::FieldTooLong));
    let exact = "y".repeat(1000);
    assert_eq!(create(&mut l, &owner, "t", &exact), Ok(()));
    assert_eq!(update(&mut l, &owner, &owner, "t", &over), Err(EntryError::FieldTooLong));
    assert_eq!(update(&mut l, &owner, &owner, "t", &exact), Ok(()));
}

#[test]
fn insufficient_funds_rejected() {
    let owner = key(15);
    let mut l = funded_ledger(&owner, ENTRY_DEPOSIT - 1);
    assert_eq!(create(&mut l, &owner, "t", "m"), Err(EntryError::InsufficientFunds));
    let broke = key(16);
    let mut empty = Ledger::new();
    assert_eq!(create(&mut empty, &broke, "t", "m"), Err(EntryError::InsufficientFunds));
}

#[test]
fn round_trip_create_update_delete() {
    let owner = key(17);
    let mut l = funded_ledger(&owner, 10 * ENTRY_DEPOSIT);
    assert_eq!(create(&mut l, &owner, "T", "M1"), Ok(()));
    let record = l.read_journal_entry(&"T".to_string(), &owner).unwrap();
    assert_eq!(record.owner, owner);
    assert_eq!(record.title, "T");
    assert_eq!(record.message, "M1");

    assert_eq!(update(&mut l, &owner, &owner, "T", "M2"), Ok(()));
    let record = l.read_journal_entry(&"T".to_string(), &owner).unwrap();
    assert_eq!(record.owner, owner);
    assert_eq!(record.title, "T");
    assert_eq!(record.message, "M2");

    assert_eq!(delete(&mut l, &owner, &owner, "T"), Ok(()));
    assert_eq!(
        l.read_journal_entry(&"T".to_string(), &owner),
        Err(EntryError::NotFound)
    );
    assert_eq!(create(&mut l, &owner, "T", "M3"), Ok(()));
    let record = l.read_journal_entry(&"T".to_string(), &owner).unwrap();
    assert_eq!(record.message, "M3");
}

#[test]
fn entry_space_is_worst_case_formula() {
    assert_eq!(ENTRY_SPACE, 8 + 32 + 4 + 50 + 4 + 1000);
    assert_eq!(ENTRY_SPACE, 1098);
    let owner = key(18);
    let mut l = funded_ledger(&owner, 10 * ENTRY_DEPOSIT);
    assert_eq!(create(&mut l, &owner, "t", "m"), Ok(()));
    assert_eq!(l.entry_space(&"t".to_string(), &owner), Ok(ENTRY_SPACE));
}

#[test]
fn resize_on_update_is_idempotent() {
    let owner = key(19);
    let mut l = funded_ledger(&owner, 10 * ENTRY_DEPOSIT);
    assert_eq!(create(&mut l, &owner, "t", "short"), Ok(()));
    let allocated = l.entry_space(&"t".to_string(), &owner).unwrap();
    assert_eq!(allocated, ENTRY_SPACE);
    let long = "b".repeat(1000);
    for message in ["a", long.as_str(), "c"] {
        assert_eq!(update(&mut l, &owner, &owner, "t", message), Ok(()));
        assert_eq!(l.entry_space(&"t".to_string(), &owner), Ok(allocated));
    }
}

#[test]
fn deposit_charged_and_refunded_in_full() {
    let owner = key(20);
    let funded = 10 * ENTRY_DEPOSIT;
    let mut l = funded_ledger(&owner, funded);
    assert_eq!(l.balance(&owner), funded);
    assert_eq!(create(&mut l, &owner, "t", "m"), Ok(()));
    assert_eq!(l.balance(&owner), funded - ENTRY_DEPOSIT);
    assert_eq!(update(&mut l, &owner, &owner, "t", "m2"), Ok(()));
    assert_eq!(l.balance(&owner), funded - ENTRY_DEPOSIT);
    assert_eq!(delete(&mut l, &owner, &owner, "t"), Ok(()));
    assert_eq!(l.balance(&owner), funded);
}

#[test]
fn records_of_distinct_owners_are_independent() {
    let owner_a = key(21);
    let owner_b = key(22);
    let mut l = Ledger::new();
    l.fund(owner_a.clone(), 10 * ENTRY_DEPOSIT);
    l.fund(owner_b.clone(), 10 * ENTRY_DEPOSIT);
    assert_eq!(create(&mut l, &owner_a, "shared title", "from a"), Ok(()));
    assert_eq!(create(&mut l, &owner_b, "shared title", "from b"), Ok(()));
    let record_a = l.read_journal_entry(&"shared title".to_string(), &owner_a).unwrap();
    let record_b = l.read_journal_entry(&"shared title".to_string(), &owner_b).unwrap();
    assert_eq!(record_a.message, "from a");
    assert_eq!(record_b.message, "from b");
    assert_eq!(delete(&mut l, &owner_a, &owner_a, "shared title"), Ok(()));
    assert_eq!(record_b.message, "from b");
    assert_eq!(
        l.read_journal_entry(&"shared title".to_string(), &owner_b).unwrap().message,
        "from b"
    );
}
