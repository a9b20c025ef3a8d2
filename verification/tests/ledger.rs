use wealthfolio_budget::category::{BudgetCategory, CategoryType, DEFAULT_CATEGORY_COUNT};
use wealthfolio_budget::date::Date;
use wealthfolio_budget::error::BudgetError;
use wealthfolio_budget::ledger::{
    clear_budget_transaction_notes, create_budget_category, create_budget_transaction,
    delete_budget_category, delete_budget_transaction, get_budget_categories,
    get_budget_summary, get_budget_transactions, initialize_default_categories,
    update_budget_category, update_budget_transaction, Ledger,
};
use wealthfolio_budget::text::{bytes_before, text_before};
use wealthfolio_budget::transaction::{BudgetTransaction, TransactionUpdate};

/// 1 January 2020, in milliseconds since the Unix epoch.
const YEAR_2020: i64 = 1_577_836_800_000;

fn day(year: i64, month: u32, day: u32) -> Date {
    Date { year, month, day }
}

#[test]
fn a_new_ledger_is_empty() {
    let ledger = Ledger::new();
    assert!(get_budget_categories(&ledger).is_empty());
    assert_eq!(get_budget_transactions(&ledger, 3, 2024), Ok(Vec::new()));
    let s = get_budget_summary(&ledger, 3, 2024).unwrap();
    assert_eq!((s.total_income, s.total_expenses, s.balance), (0, 0, 0));
    assert!(s.category_breakdown.is_empty());
}

#[test]
fn categories_are_stamped_with_the_clock() {
    let mut ledger = Ledger::new();
    let id: i64 = create_budget_category(
        &mut ledger,
        "Salary".to_string(),
        CategoryType::Income,
        "#27AE60".to_string(),
        None,
        None,
    )
    .unwrap();
    assert_eq!(id, 1);
    let c: BudgetCategory = ledger.categories.get(1).unwrap();
    assert_eq!(c.created_at, c.updated_at);
    assert!(c.created_at > YEAR_2020);
    assert!(c.is_active);

    let r = update_budget_category(
        &mut ledger,
        1,
        "Wages".to_string(),
        CategoryType::Income,
        "#27AE60".to_string(),
        None,
        None,
    );
    assert_eq!(r, Ok(()));
    let u: BudgetCategory = ledger.categories.get(1).unwrap();
    assert_eq!(u.name, "Wages");
    assert_eq!(u.created_at, c.created_at);
    assert!(u.updated_at > YEAR_2020);
}

#[test]
fn category_operations_report_their_errors() {
    let mut ledger = Ledger::new();
    assert_eq!(
        create_budget_category(
            &mut ledger,
            String::new(),
            CategoryType::Income,
            String::new(),
            None,
            None
        ),
        Err(BudgetError::InvalidArgument)
    );
    assert_eq!(
        update_budget_category(
            &mut ledger,
            1,
            "X".to_string(),
            CategoryType::Income,
            String::new(),
            None,
            None
        ),
        Err(BudgetError::NotFound)
    );
    assert_eq!(delete_budget_category(&mut ledger, 1), 0);
}

#[test]
fn deleting_a_category_twice_does_not_fail() {
    let mut ledger = Ledger::new();
    create_budget_category(
        &mut ledger,
        "Food".to_string(),
        CategoryType::Expense,
        String::new(),
        None,
        None,
    )
    .unwrap();
    create_budget_transaction(
        &mut ledger,
        1,
        500,
        "expense".to_string(),
        "Bread".to_string(),
        day(2024, 3, 1),
        None,
    )
    .unwrap();
    let created: i64 = ledger.categories.get(1).unwrap().created_at;
    assert_eq!(delete_budget_category(&mut ledger, 1), 1);
    assert!(!ledger.categories.get(1).unwrap().is_active);
    assert_eq!(delete_budget_category(&mut ledger, 1), 1);
    assert!(!ledger.categories.get(1).unwrap().is_active);
    assert_eq!(ledger.categories.get(1).unwrap().created_at, created);
    assert!(ledger.categories.get(1).unwrap().updated_at > YEAR_2020);
    assert!(get_budget_categories(&ledger).is_empty());
    assert_eq!(get_budget_transactions(&ledger, 3, 2024).unwrap().len(), 1);
    assert_eq!(get_budget_summary(&ledger, 3, 2024).unwrap().category_breakdown.len(), 1);
}

#[test]
fn transactions_are_stamped_with_the_clock() {
    let mut ledger = Ledger::new();
    let id: i64 = create_budget_transaction(
        &mut ledger,
        1,
        1234,
        "expense".to_string(),
        "Bread".to_string(),
        day(2024, 3, 1),
        Some("rye".to_string()),
    )
    .unwrap();
    assert_eq!(id, 1);
    let t: BudgetTransaction = ledger.transactions.get(1).unwrap();
    assert_eq!(t.created_at, t.updated_at);
    assert!(t.created_at > YEAR_2020);

    assert_eq!(
        update_budget_transaction(&mut ledger, 1, &TransactionUpdate::amount_only(99)),
        Ok(())
    );
    let u: BudgetTransaction = ledger.transactions.get(1).unwrap();
    assert_eq!(u.amount, 99);
    assert_eq!(u.description, "Bread");
    assert_eq!(u.notes, Some("rye".to_string()));
    assert_eq!(u.date, day(2024, 3, 1));
    assert_eq!(u.category_id, 1);
    assert_eq!(u.created_at, t.created_at);
    assert!(u.updated_at > YEAR_2020);
}

#[test]
fn transaction_operations_report_their_errors() {
    let mut ledger = Ledger::new();
    assert_eq!(
        update_budget_transaction(&mut ledger, 1, &TransactionUpdate::none()),
        Err(BudgetError::NoOpUpdate)
    );
    assert_eq!(
        update_budget_transaction(&mut ledger, 1, &TransactionUpdate::amount_only(1)),
        Err(BudgetError::NotFound)
    );
    assert_eq!(delete_budget_transaction(&mut ledger, 1), 0);
    assert_eq!(get_budget_transactions(&ledger, 0, 2024), Err(BudgetError::InvalidArgument));
    assert_eq!(get_budget_transactions(&ledger, 13, 2024), Err(BudgetError::InvalidArgument));
    assert_eq!(get_budget_summary(&ledger, 0, 2024).err(), Some(BudgetError::InvalidArgument));
    assert_eq!(get_budget_summary(&ledger, 13, 2024).err(), Some(BudgetError::InvalidArgument));
    assert!(get_budget_summary(&ledger, 12, i32::MAX).is_ok());
    assert_eq!(get_budget_transactions(&ledger, 12, i32::MAX), Ok(Vec::new()));
}

#[test]
fn a_year_in_the_ledger() {
    let mut ledger = Ledger::new();
    assert_eq!(initialize_default_categories(&mut ledger), DEFAULT_CATEGORY_COUNT);
    assert_eq!(initialize_default_categories(&mut ledger), 0);
    let listed: Vec<String> =
        get_budget_categories(&ledger).iter().map(|c| c.name.clone()).collect();
    assert_eq!(
        listed,
        vec![
            "Bills & Utilities",
            "Education",
            "Entertainment",
            "Food & Dining",
            "Freelance",
            "Healthcare",
            "Investments",
            "Other",
            "Other Income",
            "Salary",
            "Shopping",
            "Transportation",
            "Travel",
        ]
    );
    let stamp: i64 = ledger.categories.get(1).unwrap().created_at;
    assert!(stamp > YEAR_2020);
    for c in ledger.categories.records() {
        assert_eq!((c.created_at, c.updated_at), (stamp, stamp));
    }

    let entries: [(i64, u64, &str, Date); 5] = [
        (10, 300_000, "income", day(2024, 12, 1)),
        (1, 45_000, "expense", day(2024, 12, 31)),
        (4, 15_000, "expense", day(2024, 12, 15)),
        (1, 5_000, "expense", day(2025, 1, 1)),
        (1, 7_000, "expense", day(2024, 11, 30)),
    ];
    for (category_id, amount, kind, date) in entries {
        create_budget_transaction(
            &mut ledger,
            category_id,
            amount,
            kind.to_string(),
            String::new(),
            date,
            None,
        )
        .unwrap();
    }
    let december: Vec<i64> = get_budget_transactions(&ledger, 12, 2024)
        .unwrap()
        .iter()
        .map(|t| t.id)
        .collect();
    assert_eq!(december, vec![2, 3, 1]);

    let s = get_budget_summary(&ledger, 12, 2024).unwrap();
    assert_eq!(s.total_income, 300_000);
    assert_eq!(s.total_expenses, 60_000);
    assert_eq!(s.balance, 240_000);
    let shares: Vec<(String, u128, i64, u32)> = s
        .category_breakdown
        .iter()
        .map(|e| (e.category.name.clone(), e.total, e.transactions, e.percentage))
        .collect();
    assert_eq!(
        shares,
        vec![
            ("Salary".to_string(), 300_000, 1, 8333),
            ("Food & Dining".to_string(), 45_000, 1, 1250),
            ("Bills & Utilities".to_string(), 15_000, 1, 417),
        ]
    );

    assert_eq!(delete_budget_transaction(&mut ledger, 2), 1);
    let s = get_budget_summary(&ledger, 12, 2024).unwrap();
    assert_eq!(s.total_expenses, 15_000);
    assert_eq!(s.category_breakdown.len(), 2);
}

#[test]
fn texts_are_ordered_by_their_bytes() {
    assert!(bytes_before(b"", b"a"));
    assert!(!bytes_before(b"", b""));
    assert!(!bytes_before(b"a", b""));
    assert!(bytes_before(b"a", b"b"));
    assert!(bytes_before(b"ab", b"b"));
    assert!(bytes_before(b"a", b"ab"));
    assert!(!bytes_before(b"ab", b"ab"));
    assert!(!bytes_before(b"b", b"ab"));
    assert!(bytes_before(&[0x7f], &[0x80]));
    assert!(bytes_before(&[0x00, 0xff], &[0x01]));
    assert!(text_before("Zebra", "apple"));
    assert!(text_before("apple", "apples"));
    assert!(text_before("z", "é"));
    assert!(!text_before("same", "same"));
    let words: [&str; 6] = ["", "A", "Z", "a", "ab", "é"];
    for a in words {
        for b in words {
            assert_eq!(text_before(a, b), a < b);
        }
    }
}

#[test]
fn date_texts_sort_like_the_dates() {
    let days: [Date; 6] = [
        day(1999, 12, 31),
        day(2000, 1, 1),
        day(2024, 2, 29),
        day(2024, 3, 1),
        day(2024, 3, 10),
        day(2024, 10, 2),
    ];
    for a in days {
        for b in days {
            assert_eq!(text_before(&a.to_text(), &b.to_text()), a.is_before(&b));
        }
    }
}

#[test]
fn notes_are_cleared_with_a_stamp_of_the_clock() {
    let mut ledger = Ledger::new();
    assert_eq!(
        clear_budget_transaction_notes(&mut ledger, 1),
        Err(BudgetError::NotFound)
    );
    create_budget_transaction(
        &mut ledger,
        1,
        1234,
        "expense".to_string(),
        "Bread".to_string(),
        day(2024, 3, 1),
        Some("rye".to_string()),
    )
    .unwrap();
    let before: BudgetTransaction = ledger.transactions.get(1).unwrap();
    assert_eq!(clear_budget_transaction_notes(&mut ledger, 1), Ok(()));
    let after: BudgetTransaction = ledger.transactions.get(1).unwrap();
    assert_eq!(after.notes, None);
    assert!(after.updated_at > YEAR_2020);
    assert_eq!(
        after,
        BudgetTransaction { notes: None, updated_at: after.updated_at, ..before }
    );
}
