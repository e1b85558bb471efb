use expense_store::record::{Error, ExpensePayload};
use expense_store::store::ExpenseStore;

fn payload(description: &str, amount: i64, date: u64) -> ExpensePayload {
    ExpensePayload { description: String::from(description), amount, date }
}

#[test]
fn create_then_get_returns_the_record() {
    let mut store = ExpenseStore::new();
    let created = store.add_expense(payload("lunch", 1000, 10), 111).expect("valid payload");
    assert_eq!(created.id, 0);
    assert_eq!(created.description, "lunch");
    assert_eq!(created.amount, 1000);
    assert_eq!(created.date, 10);
    assert_eq!(created.created_at, 111);
    assert_eq!(created.updated_at, None);
    let got = store.get_expense(0).expect("stored record");
    assert_eq!(got, created);
}

#[test]
fn ids_strictly_increase_even_across_delete() {
    let mut store = ExpenseStore::new();
    let a = store.add_expense(payload("a", 1, 1), 1).expect("valid");
    store.delete_expense(a.id).expect("present");
    let b = store.add_expense(payload("b", 1, 1), 2).expect("valid");
    let c = store.add_expense(payload("c", 1, 1), 3).expect("valid");
    assert_eq!(a.id, 0);
    assert_eq!(b.id, 1);
    assert_eq!(c.id, 2);
    assert!(b.id > a.id && c.id > b.id);
    assert_eq!(store.next_id_value(), 3);
}

#[test]
fn update_replaces_payload_fields_and_stamps_updated_at() {
    let mut store = ExpenseStore::new();
    let created = store.add_expense(payload("old", 500, 20), 100).expect("valid");
    let updated = store
        .update_expense(created.id, payload("new", 750, 21), 200)
        .expect("present and valid");
    assert_eq!(updated.id, created.id);
    assert_eq!(updated.description, "new");
    assert_eq!(updated.amount, 750);
    assert_eq!(updated.date, 21);
    assert_eq!(updated.created_at, 100);
    assert_eq!(updated.updated_at, Some(200));
    assert_eq!(store.get_expense(created.id).expect("present"), updated);
}

#[test]
fn update_of_missing_id_is_not_found() {
    let mut store = ExpenseStore::new();
    match store.update_expense(42, payload("x", 1, 1), 5) {
        Err(Error::NotFound { msg }) => {
            assert_eq!(msg, "Couldn't update expense with id=42. Expense not found.")
        },
        other => panic!("expected NotFound, got {:?}", other),
    }
}

#[test]
fn update_validates_before_the_existence_check() {
    let mut store = ExpenseStore::new();
    // The id is absent, but the invalid payload is reported first.
    assert!(matches!(
        store.update_expense(42, payload("", 1, 1), 5),
        Err(Error::InvalidInput { .. })
    ));
}

#[test]
fn delete_then_get_is_not_found() {
    let mut store = ExpenseStore::new();
    let created = store.add_expense(payload("gone", 300, 9), 50).expect("valid");
    let removed = store.delete_expense(created.id).expect("present");
    assert_eq!(removed, created);
    match store.get_expense(created.id) {
        Err(Error::NotFound { msg }) => assert_eq!(msg, "Expense with id=0 not found"),
        other => panic!("expected NotFound, got {:?}", other),
    }
}

#[test]
fn delete_of_missing_id_is_not_found() {
    let mut store = ExpenseStore::new();
    match store.delete_expense(5) {
        Err(Error::NotFound { msg }) => {
            assert_eq!(msg, "Couldn't delete expense with id=5. Expense not found.")
        },
        other => panic!("expected NotFound, got {:?}", other),
    }
}

#[test]
fn create_rejects_nonpositive_amount() {
    let mut store = ExpenseStore::new();
    match store.add_expense(payload("ok", 0, 1), 1) {
        Err(Error::InvalidInput { msg }) => assert_eq!(msg, "Amount must be greater than zero"),
        other => panic!("expected InvalidInput, got {:?}", other),
    }
    assert!(matches!(
        store.add_expense(payload("ok", -5, 1), 1),
        Err(Error::InvalidInput { .. })
    ));
}

#[test]
fn create_rejects_blank_description() {
    let mut store = ExpenseStore::new();
    assert!(matches!(
        store.add_expense(payload("", 10, 1), 1),
        Err(Error::InvalidInput { .. })
    ));
    match store.add_expense(payload("  \t\n", 10, 1), 1) {
        Err(Error::InvalidInput { msg }) => {
            assert_eq!(msg, "Description cannot be empty or whitespace")
        },
        other => panic!("expected InvalidInput, got {:?}", other),
    }
}

#[test]
fn create_rejects_unicode_whitespace_only_description() {
    let mut store = ExpenseStore::new();
    for desc in ["\u{000B}", "\u{000C}", "\u{00A0}", "\u{2003}\u{3000}", "\u{2028}"] {
        assert!(
            matches!(
                store.add_expense(payload(desc, 10, 1), 1),
                Err(Error::InvalidInput { .. })
            ),
            "whitespace-only description {:?} must be rejected",
            desc
        );
    }
}

#[test]
fn update_rejects_whitespace_only_description() {
    let mut store = ExpenseStore::new();
    let created = store.add_expense(payload("keep", 10, 1), 1).expect("valid");
    assert!(matches!(
        store.update_expense(created.id, payload("\u{000B}", 10, 1), 2),
        Err(Error::InvalidInput { .. })
    ));
    assert_eq!(store.get_expense(created.id).expect("unchanged"), created);
}

#[test]
fn create_rejects_zero_date() {
    let mut store = ExpenseStore::new();
    match store.add_expense(payload("ok", 10, 0), 1) {
        Err(Error::InvalidInput { msg }) => assert_eq!(msg, "Date timestamp must be set"),
        other => panic!("expected InvalidInput, got {:?}", other),
    }
}

#[test]
fn create_rejects_oversized_description() {
    let mut store = ExpenseStore::new();
    let long = "x".repeat(976);
    match store.add_expense(payload(&long, 10, 1), 1) {
        Err(Error::InvalidInput { msg }) => assert_eq!(msg, "Description is too long"),
        other => panic!("expected InvalidInput, got {:?}", other),
    }
    let fits = "x".repeat(975);
    assert!(store.add_expense(payload(&fits, 10, 1), 1).is_ok());
}

#[test]
fn create_accepts_every_valid_payload() {
    let mut store = ExpenseStore::new();
    assert!(store.add_expense(payload("a", 1, 1), 0).is_ok());
    assert!(store.add_expense(payload("groceries", i64::MAX, u64::MAX), u64::MAX).is_ok());
}

#[test]
fn validation_leaves_store_unchanged() {
    let mut store = ExpenseStore::new();
    let created = store.add_expense(payload("keep", 10, 1), 1).expect("valid");
    let _ = store.add_expense(payload("", 10, 1), 2);
    assert_eq!(store.next_id_value(), 1);
    assert_eq!(store.get_expense(created.id).expect("still there"), created);
}
