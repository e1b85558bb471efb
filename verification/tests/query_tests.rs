use expense_store::query::{
    calculate_total_expenses, get_expenses_above_amount, get_expenses_by_date_range,
    get_expenses_sorted_by_amount, get_paginated_expenses,
};
use expense_store::record::{Error, Expense, ExpensePayload};
use expense_store::store::ExpenseStore;

fn payload(description: &str, amount: i64, date: u64) -> ExpensePayload {
    ExpensePayload { description: String::from(description), amount, date }
}

fn ids(v: &[Expense]) -> Vec<u64> {
    v.iter().map(|e| e.id).collect()
}

fn amounts(v: &[Expense]) -> Vec<i64> {
    v.iter().map(|e| e.amount).collect()
}

#[test]
fn date_range_is_inclusive_on_both_ends() {
    let mut store = ExpenseStore::new();
    store.add_expense(payload("early", 100, 9), 1).expect("valid");
    store.add_expense(payload("low edge", 100, 10), 1).expect("valid");
    store.add_expense(payload("middle", 100, 15), 1).expect("valid");
    store.add_expense(payload("high edge", 100, 20), 1).expect("valid");
    store.add_expense(payload("late", 100, 21), 1).expect("valid");
    let hits = get_expenses_by_date_range(&store, 10, 20);
    let dates: Vec<u64> = hits.iter().map(|e| e.date).collect();
    assert_eq!(dates, vec![10, 15, 20]);
}

#[test]
fn above_amount_is_strict() {
    let mut store = ExpenseStore::new();
    store.add_expense(payload("a", 500, 1), 1).expect("valid");
    store.add_expense(payload("b", 1500, 1), 1).expect("valid");
    store.add_expense(payload("c", 1000, 1), 1).expect("valid");
    let hits = get_expenses_above_amount(&store, 1000);
    assert_eq!(amounts(&hits), vec![1500]);
}

#[test]
fn sum_of_empty_store_is_zero() {
    let store = ExpenseStore::new();
    assert_eq!(calculate_total_expenses(&store), 0);
}

#[test]
fn sum_adds_amounts_in_minor_units() {
    let mut store = ExpenseStore::new();
    // 10.00 and 5.50 in minor units sum to 15.50.
    store.add_expense(payload("ten", 1000, 1), 1).expect("valid");
    store.add_expense(payload("five and a half", 550, 1), 1).expect("valid");
    let total = calculate_total_expenses(&store);
    assert_eq!(total, 1550);
    assert_eq!(total as f64 / 100.0, 15.5);
}

#[test]
fn pagination_returns_pages_in_scan_order() {
    let mut store = ExpenseStore::new();
    for i in 0..5u64 {
        store.add_expense(payload("r", 100 + i as i64, 1), 1).expect("valid");
    }
    assert_eq!(ids(&get_paginated_expenses(&store, 1, 2).expect("ok")), vec![0, 1]);
    assert_eq!(ids(&get_paginated_expenses(&store, 2, 2).expect("ok")), vec![2, 3]);
    assert_eq!(ids(&get_paginated_expenses(&store, 3, 2).expect("ok")), vec![4]);
    assert_eq!(ids(&get_paginated_expenses(&store, 4, 2).expect("ok")), Vec::<u64>::new());
}

#[test]
fn pagination_count_follows_the_formula() {
    let mut store = ExpenseStore::new();
    let n: usize = 5;
    for _ in 0..n {
        store.add_expense(payload("r", 1, 1), 1).expect("valid");
    }
    for page in 1..=4usize {
        for per_page in 1..=6usize {
            let got = get_paginated_expenses(&store, page, per_page).expect("ok").len();
            let start = (page - 1) * per_page;
            let want = per_page.min(n.saturating_sub(start));
            assert_eq!(got, want, "page={} per_page={}", page, per_page);
        }
    }
}

#[test]
fn pagination_rejects_page_zero() {
    let mut store = ExpenseStore::new();
    store.add_expense(payload("r", 1, 1), 1).expect("valid");
    assert!(matches!(
        get_paginated_expenses(&store, 0, 2),
        Err(Error::InvalidInput { .. })
    ));
}

#[test]
fn sorted_by_amount_is_descending() {
    let mut store = ExpenseStore::new();
    store.add_expense(payload("five", 500, 1), 1).expect("valid");
    store.add_expense(payload("fifteen", 1500, 1), 1).expect("valid");
    store.add_expense(payload("ten", 1000, 1), 1).expect("valid");
    let sorted = get_expenses_sorted_by_amount(&store);
    assert_eq!(amounts(&sorted), vec![1500, 1000, 500]);
}

#[test]
fn sorted_by_amount_breaks_ties_by_ascending_id() {
    let mut store = ExpenseStore::new();
    store.add_expense(payload("a", 700, 1), 1).expect("valid");
    store.add_expense(payload("b", 900, 1), 1).expect("valid");
    store.add_expense(payload("c", 700, 1), 1).expect("valid");
    let sorted = get_expenses_sorted_by_amount(&store);
    assert_eq!(amounts(&sorted), vec![900, 700, 700]);
    assert_eq!(ids(&sorted), vec![1, 0, 2]);
}
