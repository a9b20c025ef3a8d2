use wealthfolio_budget::category::{
    BudgetCategory, CategoryStore, CategoryType, DEFAULT_CATEGORY_COUNT,
};
use wealthfolio_budget::error::BudgetError;

fn add(store: &mut CategoryStore, name: &str, kind: CategoryType, now: i64) -> i64 {
    store
        .create_at(name.to_string(), kind, "#000000".to_string(), None, None, now)
        .unwrap()
}

fn names(list: &Vec<BudgetCategory>) -> Vec<String> {
    list.iter().map(|c| c.name.clone()).collect()
}

#[test]
fn new_store_is_empty() {
    let store = CategoryStore::new();
    assert!(store.records().is_empty());
    assert!(store.list_active().is_empty());
    assert_eq!(store.get(1), None);
}

#[test]
fn create_hands_out_identities_from_one() {
    let mut store = CategoryStore::new();
    assert_eq!(add(&mut store, "Salary", CategoryType::Income, 10), 1);
    assert_eq!(add(&mut store, "Food", CategoryType::Expense, 20), 2);
    assert_eq!(
        store.get(2),
        Some(BudgetCategory {
            id: 2,
            name: "Food".to_string(),
            category_type: CategoryType::Expense,
            color: "#000000".to_string(),
            icon: None,
            parent_id: None,
            is_active: true,
            created_at: 20,
            updated_at: 20,
        })
    );
}

#[test]
fn create_keeps_icon_and_parent() {
    let mut store = CategoryStore::new();
    let parent: i64 = add(&mut store, "Home", CategoryType::Expense, 1);
    let id: i64 = store
        .create_at(
            "Rent".to_string(),
            CategoryType::Expense,
            "#ABCDEF".to_string(),
            Some("house".to_string()),
            Some(parent),
            2,
        )
        .unwrap();
    let c: BudgetCategory = store.get(id).unwrap();
    assert_eq!(c.icon, Some("house".to_string()));
    assert_eq!(c.parent_id, Some(1));
    assert_eq!(c.color, "#ABCDEF");
}

#[test]
fn create_refuses_an_empty_name() {
    let mut store = CategoryStore::new();
    let r = store.create_at(String::new(), CategoryType::Income, String::new(), None, None, 1);
    assert_eq!(r, Err(BudgetError::InvalidArgument));
    assert!(store.records().is_empty());
    assert_eq!(add(&mut store, "Salary", CategoryType::Income, 1), 1);
}

#[test]
fn category_create_reports_a_storage_error_when_identities_run_out() {
    let last = BudgetCategory {
        id: i64::MAX,
        name: "Last".to_string(),
        category_type: CategoryType::Income,
        color: String::new(),
        icon: None,
        parent_id: None,
        is_active: true,
        created_at: 0,
        updated_at: 0,
    };
    let mut store = CategoryStore::from_rows(vec![last]).unwrap();
    let r = store.create_at("More".to_string(), CategoryType::Income, String::new(), None, None, 1);
    assert_eq!(r, Err(BudgetError::StorageError));
    assert_eq!(store.records().len(), 1);
}

#[test]
fn list_active_is_ordered_by_name_bytes() {
    let mut store = CategoryStore::new();
    add(&mut store, "banana", CategoryType::Expense, 1);
    add(&mut store, "Cherry", CategoryType::Expense, 2);
    add(&mut store, "apple", CategoryType::Expense, 3);
    add(&mut store, "Apple", CategoryType::Expense, 4);
    add(&mut store, "app", CategoryType::Expense, 5);
    add(&mut store, "Éclair", CategoryType::Expense, 6);
    assert_eq!(
        names(&store.list_active()),
        vec!["Apple", "Cherry", "app", "apple", "banana", "Éclair"]
    );
}

#[test]
fn list_active_keeps_creation_order_among_equal_names() {
    let mut store = CategoryStore::new();
    add(&mut store, "Same", CategoryType::Expense, 1);
    add(&mut store, "Other", CategoryType::Expense, 2);
    add(&mut store, "Same", CategoryType::Income, 3);
    let ids: Vec<i64> = store.list_active().iter().map(|c| c.id).collect();
    assert_eq!(ids, vec![2, 1, 3]);
}

#[test]
fn soft_delete_hides_the_category_and_keeps_the_row() {
    let mut store = CategoryStore::new();
    add(&mut store, "Salary", CategoryType::Income, 1);
    add(&mut store, "Food", CategoryType::Expense, 2);
    let kept: BudgetCategory = store.get(1).unwrap();
    assert_eq!(store.soft_delete_at(1, 30), 1);
    assert_eq!(names(&store.list_active()), vec!["Food"]);
    assert_eq!(store.records().len(), 2);
    assert_eq!(
        store.get(1),
        Some(BudgetCategory { is_active: false, updated_at: 30, ..kept })
    );
    assert_eq!(store.get(2).unwrap().updated_at, 2);
}

#[test]
fn soft_delete_twice_is_soft_delete_once() {
    let mut store = CategoryStore::new();
    add(&mut store, "Salary", CategoryType::Income, 1);
    add(&mut store, "Food", CategoryType::Expense, 2);
    assert_eq!(store.soft_delete_at(2, 30), 1);
    let after_first: Vec<BudgetCategory> = store.records().clone();
    assert!(!store.get(2).unwrap().is_active);
    assert_eq!(store.soft_delete_at(2, 30), 1);
    assert!(!store.get(2).unwrap().is_active);
    assert_eq!(store.records(), &after_first);
    assert_eq!(store.soft_delete_at(2, 40), 1);
    assert!(!store.get(2).unwrap().is_active);
    assert_eq!(store.get(2).unwrap().updated_at, 40);
    assert_eq!(store.get(1), Some(after_first[0].clone()));
}

#[test]
fn soft_delete_of_an_unknown_category_touches_nothing() {
    let mut store = CategoryStore::new();
    add(&mut store, "Salary", CategoryType::Income, 1);
    let before: Vec<BudgetCategory> = store.records().clone();
    assert_eq!(store.soft_delete_at(7, 30), 0);
    assert_eq!(store.records(), &before);
}

#[test]
fn soft_delete_does_not_cascade_to_children() {
    let mut store = CategoryStore::new();
    let parent: i64 = add(&mut store, "Home", CategoryType::Expense, 1);
    let child: i64 = store
        .create_at("Rent".to_string(), CategoryType::Expense, String::new(), None, Some(parent), 2)
        .unwrap();
    store.soft_delete_at(parent, 30);
    assert!(store.get(child).unwrap().is_active);
    assert_eq!(store.get(child).unwrap().parent_id, Some(parent));
}

#[test]
fn update_replaces_the_descriptive_fields_and_refreshes_the_stamp() {
    let mut store = CategoryStore::new();
    add(&mut store, "Salary", CategoryType::Income, 1);
    add(&mut store, "Food", CategoryType::Expense, 2);
    let r = store.update_at(
        2,
        "Groceries".to_string(),
        CategoryType::Income,
        "#123456".to_string(),
        Some("cart".to_string()),
        Some(1),
        50,
    );
    assert_eq!(r, Ok(()));
    assert_eq!(
        store.get(2),
        Some(BudgetCategory {
            id: 2,
            name: "Groceries".to_string(),
            category_type: CategoryType::Income,
            color: "#123456".to_string(),
            icon: Some("cart".to_string()),
            parent_id: Some(1),
            is_active: true,
            created_at: 2,
            updated_at: 50,
        })
    );
    assert_eq!(store.get(1).unwrap().name, "Salary");
    assert_eq!(store.get(1).unwrap().updated_at, 1);
}

#[test]
fn update_leaves_an_inactive_category_inactive() {
    let mut store = CategoryStore::new();
    add(&mut store, "Food", CategoryType::Expense, 2);
    store.soft_delete_at(1, 3);
    let r = store.update_at(1, "Dining".to_string(), CategoryType::Expense, String::new(), None, None, 9);
    assert_eq!(r, Ok(()));
    let c: BudgetCategory = store.get(1).unwrap();
    assert!(!c.is_active);
    assert_eq!(c.name, "Dining");
}

#[test]
fn update_refuses_unknown_identity_and_empty_name() {
    let mut store = CategoryStore::new();
    add(&mut store, "Food", CategoryType::Expense, 2);
    let before: Vec<BudgetCategory> = store.records().clone();
    assert_eq!(
        store.update_at(9, "X".to_string(), CategoryType::Expense, String::new(), None, None, 9),
        Err(BudgetError::NotFound)
    );
    assert_eq!(
        store.update_at(1, String::new(), CategoryType::Expense, String::new(), None, None, 9),
        Err(BudgetError::InvalidArgument)
    );
    assert_eq!(
        store.update_at(9, String::new(), CategoryType::Expense, String::new(), None, None, 9),
        Err(BudgetError::InvalidArgument)
    );
    assert_eq!(store.records(), &before);
}

#[test]
fn category_from_rows_takes_ascending_identities_only() {
    let row = |id: i64| BudgetCategory {
        id,
        name: format!("c{}", id),
        category_type: CategoryType::Expense,
        color: String::new(),
        icon: None,
        parent_id: None,
        is_active: id % 2 == 0,
        created_at: 0,
        updated_at: 0,
    };
    let mut store = CategoryStore::from_rows(vec![row(2), row(5), row(9)]).unwrap();
    assert_eq!(store.records().len(), 3);
    assert_eq!(add(&mut store, "next", CategoryType::Income, 1), 10);
    assert!(CategoryStore::from_rows(vec![]).is_ok());
    assert_eq!(
        CategoryStore::from_rows(vec![row(2), row(2)]).err(),
        Some(BudgetError::InvalidArgument)
    );
    assert_eq!(
        CategoryStore::from_rows(vec![row(3), row(1)]).err(),
        Some(BudgetError::InvalidArgument)
    );
    assert_eq!(
        CategoryStore::from_rows(vec![row(0)]).err(),
        Some(BudgetError::InvalidArgument)
    );
    assert_eq!(
        CategoryStore::from_rows(vec![row(-4), row(1)]).err(),
        Some(BudgetError::InvalidArgument)
    );
}

#[test]
fn seeding_fills_an_empty_store_with_the_defaults() {
    let mut store = CategoryStore::new();
    assert_eq!(store.seed_defaults_at(77), DEFAULT_CATEGORY_COUNT);
    let rows: &Vec<BudgetCategory> = store.records();
    assert_eq!(rows.len(), 13);
    let expected: [(&str, &str, &str, CategoryType); 13] = [
        ("Food & Dining", "\u{1F354}", "#FF6B6B", CategoryType::Expense),
        ("Shopping", "\u{1F6CD}\u{FE0F}", "#4ECDC4", CategoryType::Expense),
        ("Transportation", "\u{1F697}", "#45B7D1", CategoryType::Expense),
        ("Bills & Utilities", "\u{26A1}", "#FFA07A", CategoryType::Expense),
        ("Entertainment", "\u{1F3AC}", "#98D8C8", CategoryType::Expense),
        ("Healthcare", "\u{1F3E5}", "#F7DC6F", CategoryType::Expense),
        ("Education", "\u{1F4DA}", "#BB8FCE", CategoryType::Expense),
        ("Travel", "\u{2708}\u{FE0F}", "#85C1E2", CategoryType::Expense),
        ("Other", "\u{1F4E6}", "#95A5A6", CategoryType::Expense),
        ("Salary", "\u{1F4B0}", "#27AE60", CategoryType::Income),
        ("Freelance", "\u{1F4BC}", "#2ECC71", CategoryType::Income),
        ("Investments", "\u{1F4C8}", "#58D68D", CategoryType::Income),
        ("Other Income", "\u{1F4B5}", "#82E0AA", CategoryType::Income),
    ];
    for (k, (name, icon, color, kind)) in expected.iter().enumerate() {
        assert_eq!(
            rows[k],
            BudgetCategory {
                id: k as i64 + 1,
                name: name.to_string(),
                category_type: *kind,
                color: color.to_string(),
                icon: Some(icon.to_string()),
                parent_id: None,
                is_active: true,
                created_at: 77,
                updated_at: 77,
            }
        );
    }
}

#[test]
fn seeding_leaves_a_store_with_categories_alone() {
    let mut store = CategoryStore::new();
    add(&mut store, "Mine", CategoryType::Expense, 1);
    store.soft_delete_at(1, 2);
    assert_eq!(store.seed_defaults_at(5), 0);
    assert_eq!(store.records().len(), 1);
    let mut seeded = CategoryStore::new();
    seeded.seed_defaults_at(1);
    assert_eq!(seeded.seed_defaults_at(2), 0);
    assert_eq!(seeded.records().len(), 13);
}

#[test]
fn category_type_is_written_and_read_by_name() {
    assert_eq!(CategoryType::Income.as_text(), "income");
    assert_eq!(CategoryType::Expense.as_text(), "expense");
    assert_eq!(CategoryType::from_text("income"), Ok(CategoryType::Income));
    assert_eq!(CategoryType::from_text("expense"), Ok(CategoryType::Expense));
    assert_eq!(CategoryType::from_text("Income"), Err(BudgetError::InvalidArgument));
    assert_eq!(CategoryType::from_text(""), Err(BudgetError::InvalidArgument));
    assert_eq!(CategoryType::from_text("transfer"), Err(BudgetError::InvalidArgument));
}
