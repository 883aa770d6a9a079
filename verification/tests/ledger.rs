use todo_vote::address::{Address, Namespace};
use todo_vote::auth::{authorize, creation_owner, CreateMode};
use todo_vote::error::Error;
use todo_vote::records::{Identity, Record, TodoPatch, VotePatch};
use todo_vote::store::Ledger;

fn alice() -> Identity {
    Identity { bytes: vec![1; 32] }
}

fn bob() -> Identity {
    Identity { bytes: vec![2; 32] }
}

fn todo_addr(owner: &Identity, title: &[u8]) -> Address {
    todo_vote::address::derive(Namespace::Todo, &vec![owner.bytes.clone(), title.to_vec()])
}

fn empty_patch() -> TodoPatch {
    TodoPatch { title: None, description: None, is_active: None }
}

#[test]
fn create_todo_then_read_yields_inputs() {
    let mut l = Ledger::new();
    let a = l.create_todo(&alice(), b"water plants".to_vec(), b"the ficus too".to_vec(), 40).unwrap();
    match l.read(&a) {
        Some(Record::Todo(t)) => {
            assert_eq!(t.owner.bytes, alice().bytes);
            assert_eq!(t.title, b"water plants".to_vec());
            assert_eq!(t.description, b"the ficus too".to_vec());
            assert!(t.is_active);
            assert_eq!(t.created_on, 40);
            assert_eq!(t.modified_on, 40);
        }
        _ => panic!("expected a todo record"),
    }
}

#[test]
fn created_address_is_rederivable() {
    let mut l = Ledger::new();
    let a = l.create_todo(&alice(), b"water plants".to_vec(), b"".to_vec(), 1).unwrap();
    let rederived = todo_addr(&alice(), b"water plants");
    assert_eq!(a.bytes, rederived.bytes);
}

#[test]
fn create_todo_duplicate_fails() {
    let mut l = Ledger::new();
    let a = l.create_todo(&alice(), b"t".to_vec(), b"first".to_vec(), 1).unwrap();
    let r = l.create_todo(&alice(), b"t".to_vec(), b"second".to_vec(), 2);
    assert!(matches!(r, Err(Error::AlreadyExists)));
    match l.read(&a) {
        Some(Record::Todo(t)) => {
            assert_eq!(t.description, b"first".to_vec());
            assert_eq!(t.created_on, 1);
            assert_eq!(t.modified_on, 1);
        }
        _ => panic!("first record must still be there"),
    }
}

#[test]
fn create_todo_oversized_title_rejected() {
    let mut l = Ledger::new();
    let title = vec![b'x'; 51];
    let r = l.create_todo(&alice(), title.clone(), b"d".to_vec(), 1);
    assert!(matches!(r, Err(Error::FieldTooLong)));
    assert!(l.read(&todo_addr(&alice(), &title)).is_none());
}

#[test]
fn create_todo_largest_title_accepted() {
    let mut l = Ledger::new();
    let r = l.create_todo(&alice(), vec![b'x'; 50], vec![b'y'; 200], 1);
    assert!(r.is_ok());
}

#[test]
fn create_todo_oversized_description_rejected() {
    let mut l = Ledger::new();
    let r = l.create_todo(&alice(), b"t".to_vec(), vec![b'y'; 201], 1);
    assert!(matches!(r, Err(Error::FieldTooLong)));
}

#[test]
fn update_todo_empty_patch_only_modified_on() {
    let mut l = Ledger::new();
    let a = l.create_todo(&alice(), b"t".to_vec(), b"d".to_vec(), 5).unwrap();
    assert_eq!(l.update_todo(&a, &alice(), empty_patch(), 9), Ok(()));
    match l.read(&a) {
        Some(Record::Todo(t)) => {
            assert_eq!(t.title, b"t".to_vec());
            assert_eq!(t.description, b"d".to_vec());
            assert!(t.is_active);
            assert_eq!(t.created_on, 5);
            assert_eq!(t.modified_on, 9);
        }
        _ => panic!("expected a todo record"),
    }
}

#[test]
fn update_todo_changes_supplied_fields() {
    let mut l = Ledger::new();
    let a = l.create_todo(&alice(), b"t".to_vec(), b"d".to_vec(), 5).unwrap();
    let patch = TodoPatch {
        title: Some(b"t2".to_vec()),
        description: None,
        is_active: Some(false),
    };
    assert_eq!(l.update_todo(&a, &alice(), patch, 6), Ok(()));
    match l.read(&a) {
        Some(Record::Todo(t)) => {
            assert_eq!(t.title, b"t2".to_vec());
            assert_eq!(t.description, b"d".to_vec());
            assert!(!t.is_active);
            assert_eq!(t.created_on, 5);
            assert_eq!(t.modified_on, 6);
        }
        _ => panic!("expected a todo record"),
    }
}

#[test]
fn update_todo_wrong_owner_unauthorized() {
    let mut l = Ledger::new();
    let a = l.create_todo(&alice(), b"t".to_vec(), b"d".to_vec(), 5).unwrap();
    let patch = TodoPatch { title: Some(b"taken".to_vec()), description: None, is_active: None };
    assert_eq!(l.update_todo(&a, &bob(), patch, 6), Err(Error::Unauthorized));
    match l.read(&a) {
        Some(Record::Todo(t)) => {
            assert_eq!(t.title, b"t".to_vec());
            assert_eq!(t.description, b"d".to_vec());
            assert!(t.is_active);
            assert_eq!(t.created_on, 5);
            assert_eq!(t.modified_on, 5);
        }
        _ => panic!("record must be unchanged"),
    }
}

#[test]
fn delete_todo_wrong_owner_unauthorized() {
    let mut l = Ledger::new();
    let a = l.create_todo(&alice(), b"t".to_vec(), b"d".to_vec(), 5).unwrap();
    assert_eq!(l.delete_todo(&a, &bob()), Err(Error::Unauthorized));
    assert!(l.read(&a).is_some());
}

#[test]
fn update_todo_missing_not_found() {
    let mut l = Ledger::new();
    let a = todo_addr(&alice(), b"never created");
    assert_eq!(l.update_todo(&a, &alice(), empty_patch(), 1), Err(Error::NotFound));
}

#[test]
fn update_todo_oversized_patch_rejected() {
    let mut l = Ledger::new();
    let a = l.create_todo(&alice(), b"t".to_vec(), b"d".to_vec(), 5).unwrap();
    let patch = TodoPatch { title: Some(vec![b'x'; 51]), description: None, is_active: None };
    assert_eq!(l.update_todo(&a, &alice(), patch, 6), Err(Error::FieldTooLong));
    match l.read(&a) {
        Some(Record::Todo(t)) => {
            assert_eq!(t.title, b"t".to_vec());
            assert_eq!(t.modified_on, 5);
        }
        _ => panic!("record must be unchanged"),
    }
}

#[test]
fn delete_todo_then_read_not_found() {
    let mut l = Ledger::new();
    let a = l.create_todo(&alice(), b"t".to_vec(), b"d".to_vec(), 5).unwrap();
    assert_eq!(l.delete_todo(&a, &alice()), Ok(()));
    assert!(l.read(&a).is_none());
    assert_eq!(l.update_todo(&a, &alice(), empty_patch(), 6), Err(Error::NotFound));
}

#[test]
fn recreate_after_delete_is_permitted() {
    let mut l = Ledger::new();
    let a = l.create_todo(&alice(), b"t".to_vec(), b"d".to_vec(), 5).unwrap();
    assert_eq!(l.delete_todo(&a, &alice()), Ok(()));
    let again = l.create_todo(&alice(), b"t".to_vec(), b"d2".to_vec(), 8);
    assert!(again.is_ok());
    assert_eq!(again.unwrap().bytes, a.bytes);
}

#[test]
fn create_vote_starts_at_zero() {
    let mut l = Ledger::new();
    let a = l.create_vote(&alice(), b"lunch spot".to_vec(), 30).unwrap();
    match l.read(&a) {
        Some(Record::Vote(v)) => {
            assert_eq!(v.owner.bytes, alice().bytes);
            assert_eq!(v.name, b"lunch spot".to_vec());
            assert_eq!(v.count, 0);
            assert_eq!(v.created_on, 30);
            assert_eq!(v.modified_on, 30);
        }
        _ => panic!("expected a vote record"),
    }
}

#[test]
fn create_vote_duplicate_fails() {
    let mut l = Ledger::new();
    l.create_vote(&alice(), b"n".to_vec(), 1).unwrap();
    let r = l.create_vote(&alice(), b"n".to_vec(), 2);
    assert!(matches!(r, Err(Error::AlreadyExists)));
}

#[test]
fn create_vote_oversized_name_rejected() {
    let mut l = Ledger::new();
    let r = l.create_vote(&alice(), vec![b'n'; 51], 1);
    assert!(matches!(r, Err(Error::FieldTooLong)));
}

#[test]
fn update_vote_keeps_count() {
    let mut l = Ledger::new();
    let a = l.create_vote(&alice(), b"n".to_vec(), 1).unwrap();
    assert_eq!(l.cast_vote(&a, &bob(), 2), Ok(()));
    let patch = VotePatch { name: Some(b"renamed".to_vec()) };
    assert_eq!(l.update_vote(&a, &alice(), patch, 3), Ok(()));
    match l.read(&a) {
        Some(Record::Vote(v)) => {
            assert_eq!(v.name, b"renamed".to_vec());
            assert_eq!(v.count, 1);
            assert_eq!(v.created_on, 1);
            assert_eq!(v.modified_on, 3);
        }
        _ => panic!("expected a vote record"),
    }
}

#[test]
fn update_vote_wrong_owner_unauthorized() {
    let mut l = Ledger::new();
    let a = l.create_vote(&alice(), b"n".to_vec(), 1).unwrap();
    let patch = VotePatch { name: Some(b"x".to_vec()) };
    assert_eq!(l.update_vote(&a, &bob(), patch, 2), Err(Error::Unauthorized));
}

#[test]
fn cast_vote_twice_duplicate() {
    let mut l = Ledger::new();
    let a = l.create_vote(&alice(), b"n".to_vec(), 1).unwrap();
    assert_eq!(l.cast_vote(&a, &bob(), 2), Ok(()));
    assert_eq!(l.cast_vote(&a, &bob(), 3), Err(Error::DuplicateVote));
    match l.read(&a) {
        Some(Record::Vote(v)) => {
            assert_eq!(v.count, 1);
            assert_eq!(v.modified_on, 2);
        }
        _ => panic!("expected a vote record"),
    }
    assert_eq!(l.receipt_total(), 1);
}

#[test]
fn cast_vote_distinct_identities_all_counted() {
    let mut l = Ledger::new();
    let a = l.create_vote(&alice(), b"n".to_vec(), 1).unwrap();
    for i in 0..5u8 {
        let voter = Identity { bytes: vec![i + 10; 32] };
        assert_eq!(l.cast_vote(&a, &voter, 2 + i as i64), Ok(()));
    }
    match l.read(&a) {
        Some(Record::Vote(v)) => assert_eq!(v.count, 5),
        _ => panic!("expected a vote record"),
    }
    assert_eq!(l.receipt_total(), 5);
}

#[test]
fn cast_vote_missing_not_found() {
    let mut l = Ledger::new();
    let a = todo_vote::address::derive(Namespace::Vote, &vec![alice().bytes.clone(), b"nope".to_vec()]);
    assert_eq!(l.cast_vote(&a, &bob(), 1), Err(Error::NotFound));
}

#[test]
fn delete_vote_keeps_receipts() {
    let mut l = Ledger::new();
    let a = l.create_vote(&alice(), b"n".to_vec(), 1).unwrap();
    assert_eq!(l.cast_vote(&a, &bob(), 2), Ok(()));
    assert_eq!(l.delete_vote(&a, &alice()), Ok(()));
    assert!(l.read(&a).is_none());
    assert_eq!(l.receipt_total(), 1);
    assert_eq!(l.cast_vote(&a, &bob(), 3), Err(Error::NotFound));
}

#[test]
fn delete_vote_wrong_owner_unauthorized() {
    let mut l = Ledger::new();
    let a = l.create_vote(&alice(), b"n".to_vec(), 1).unwrap();
    assert_eq!(l.delete_vote(&a, &bob()), Err(Error::Unauthorized));
    assert!(l.read(&a).is_some());
}

#[test]
fn kind_mismatch_is_not_found() {
    let mut l = Ledger::new();
    let a = l.create_vote(&alice(), b"n".to_vec(), 1).unwrap();
    assert_eq!(l.update_todo(&a, &alice(), empty_patch(), 2), Err(Error::NotFound));
    assert_eq!(l.delete_todo(&a, &alice()), Err(Error::NotFound));
}

#[test]
fn authorize_compares_identities() {
    assert_eq!(authorize(&alice(), &alice()), Ok(()));
    assert_eq!(authorize(&bob(), &alice()), Err(Error::Unauthorized));
}

#[test]
fn creation_owner_follows_mode() {
    let caller = alice();
    let issuer = bob();
    assert_eq!(creation_owner(CreateMode::SelfService, &caller, &issuer).bytes, caller.bytes);
    assert_eq!(creation_owner(CreateMode::AdminIssued, &caller, &issuer).bytes, issuer.bytes);
}
