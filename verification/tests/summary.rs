use wealthfolio_budget::category::{BudgetCategory, CategoryStore, CategoryType};
use wealthfolio_budget::date::{resolve, Date, Period};
use wealthfolio_budget::summary::{percentage, summarize, BudgetSummary, CategoryBreakdown};
use wealthfolio_budget::transaction::TransactionStore;

fn day(year: i64, month: u32, day: u32) -> Date {
    Date { year, month, day }
}

fn category(store: &mut CategoryStore, name: &str, kind: CategoryType) -> i64 {
    store
        .create_at(name.to_string(), kind, "#111111".to_string(), None, None, 1)
        .unwrap()
}

fn spend(store: &mut TransactionStore, category_id: i64, amount: u64, kind: &str, date: Date) {
    store
        .create_at(category_id, amount, kind.to_string(), "x".to_string(), date, None, 1)
        .unwrap();
}

fn march() -> Period {
    resolve(3, 2024).unwrap()
}

#[test]
fn salary_and_food_in_march() {
    let mut categories = CategoryStore::new();
    let salary: i64 = category(&mut categories, "Salary", CategoryType::Income);
    let food: i64 = category(&mut categories, "Food", CategoryType::Expense);
    assert_eq!((salary, food), (1, 2));
    let mut transactions = TransactionStore::new();
    spend(&mut transactions, 1, 100_000, "income", Date::parse("2024-03-05").unwrap());
    spend(&mut transactions, 2, 20_000, "expense", Date::parse("2024-03-10").unwrap());
    spend(&mut transactions, 2, 5_000, "expense", Date::parse("2024-04-01").unwrap());

    let s: BudgetSummary = summarize(&categories, &transactions, &march());
    assert_eq!(s.total_income, 100_000);
    assert_eq!(s.total_expenses, 20_000);
    assert_eq!(s.balance, 80_000);
    assert_eq!(
        s.category_breakdown,
        vec![
            CategoryBreakdown {
                category: categories.get(1).unwrap(),
                total: 100_000,
                transactions: 1,
                percentage: 8333,
            },
            CategoryBreakdown {
                category: categories.get(2).unwrap(),
                total: 20_000,
                transactions: 1,
                percentage: 1667,
            },
        ]
    );
    assert_eq!(s.category_breakdown[0].category.name, "Salary");
    assert_eq!(s.category_breakdown[1].category.name, "Food");
}

#[test]
fn a_month_without_transactions_has_an_empty_summary() {
    let mut categories = CategoryStore::new();
    category(&mut categories, "Salary", CategoryType::Income);
    let mut transactions = TransactionStore::new();
    spend(&mut transactions, 1, 100, "income", day(2024, 4, 1));
    spend(&mut transactions, 1, 100, "income", day(2024, 2, 29));
    let expected = BudgetSummary {
        total_income: 0,
        total_expenses: 0,
        balance: 0,
        category_breakdown: Vec::new(),
    };
    assert_eq!(summarize(&categories, &transactions, &march()), expected);
    assert_eq!(summarize(&categories, &TransactionStore::new(), &march()), expected);
    assert_eq!(summarize(&CategoryStore::new(), &TransactionStore::new(), &march()), expected);
}

#[test]
fn the_balance_can_be_negative() {
    let mut categories = CategoryStore::new();
    category(&mut categories, "Food", CategoryType::Expense);
    let mut transactions = TransactionStore::new();
    spend(&mut transactions, 1, 300, "expense", day(2024, 3, 1));
    spend(&mut transactions, 1, 100, "income", day(2024, 3, 2));
    let s: BudgetSummary = summarize(&categories, &transactions, &march());
    assert_eq!(s.total_income, 100);
    assert_eq!(s.total_expenses, 300);
    assert_eq!(s.balance, -200);
    assert_eq!(s.category_breakdown.len(), 1);
    assert_eq!(s.category_breakdown[0].total, 400);
    assert_eq!(s.category_breakdown[0].transactions, 2);
    assert_eq!(s.category_breakdown[0].percentage, 10000);
}

#[test]
fn an_unrecognized_type_adds_to_no_figure() {
    let mut categories = CategoryStore::new();
    category(&mut categories, "Food", CategoryType::Expense);
    category(&mut categories, "Odd", CategoryType::Expense);
    let mut transactions = TransactionStore::new();
    spend(&mut transactions, 1, 300, "expense", day(2024, 3, 1));
    let without: BudgetSummary = summarize(&categories, &transactions, &march());
    spend(&mut transactions, 1, 999, "transfer", day(2024, 3, 2));
    spend(&mut transactions, 2, 999, "Income", day(2024, 3, 3));
    let with: BudgetSummary = summarize(&categories, &transactions, &march());
    assert_eq!(with, without);
    assert_eq!(with.total_income, 0);
    assert_eq!(with.total_expenses, 300);
    assert_eq!(with.category_breakdown.len(), 1);
    assert_eq!(with.category_breakdown[0].transactions, 1);
    assert_eq!(transactions.list_in_period(&march()).len(), 3);
}

#[test]
fn only_unrecognized_transactions_give_an_empty_breakdown() {
    let mut categories = CategoryStore::new();
    category(&mut categories, "Odd", CategoryType::Expense);
    let mut transactions = TransactionStore::new();
    spend(&mut transactions, 1, 999, "", day(2024, 3, 3));
    let s: BudgetSummary = summarize(&categories, &transactions, &march());
    assert_eq!(s.total_income, 0);
    assert_eq!(s.total_expenses, 0);
    assert_eq!(s.balance, 0);
    assert!(s.category_breakdown.is_empty());
}

#[test]
fn zero_amounts_give_zero_percentages() {
    let mut categories = CategoryStore::new();
    category(&mut categories, "A", CategoryType::Expense);
    category(&mut categories, "B", CategoryType::Income);
    let mut transactions = TransactionStore::new();
    spend(&mut transactions, 1, 0, "expense", day(2024, 3, 3));
    spend(&mut transactions, 2, 0, "income", day(2024, 3, 3));
    spend(&mut transactions, 2, 0, "income", day(2024, 3, 4));
    let s: BudgetSummary = summarize(&categories, &transactions, &march());
    assert_eq!(s.balance, 0);
    assert_eq!(s.category_breakdown.len(), 2);
    for entry in &s.category_breakdown {
        assert_eq!(entry.total, 0);
        assert_eq!(entry.percentage, 0);
    }
    let ids: Vec<i64> = s.category_breakdown.iter().map(|e| e.category.id).collect();
    assert_eq!(ids, vec![1, 2]);
    assert_eq!(s.category_breakdown[1].transactions, 2);
}

#[test]
fn breakdown_is_ordered_by_total_then_by_identity() {
    let mut categories = CategoryStore::new();
    for name in ["a", "b", "c", "d", "e"] {
        category(&mut categories, name, CategoryType::Expense);
    }
    let mut transactions = TransactionStore::new();
    spend(&mut transactions, 1, 50, "expense", day(2024, 3, 1));
    spend(&mut transactions, 2, 70, "expense", day(2024, 3, 1));
    spend(&mut transactions, 3, 50, "expense", day(2024, 3, 1));
    spend(&mut transactions, 4, 90, "income", day(2024, 3, 1));
    spend(&mut transactions, 5, 20, "expense", day(2024, 3, 1));
    spend(&mut transactions, 5, 50, "expense", day(2024, 3, 2));
    let s: BudgetSummary = summarize(&categories, &transactions, &march());
    let order: Vec<(i64, u128)> =
        s.category_breakdown.iter().map(|e| (e.category.id, e.total)).collect();
    assert_eq!(order, vec![(4, 90), (2, 70), (5, 70), (1, 50), (3, 50)]);
    for entry in &s.category_breakdown {
        assert!(entry.percentage <= 10000);
    }
}

#[test]
fn inactive_categories_keep_their_entries() {
    let mut categories = CategoryStore::new();
    category(&mut categories, "Old", CategoryType::Expense);
    let mut transactions = TransactionStore::new();
    spend(&mut transactions, 1, 50, "expense", day(2024, 3, 1));
    categories.soft_delete_at(1, 9);
    let s: BudgetSummary = summarize(&categories, &transactions, &march());
    assert_eq!(s.category_breakdown.len(), 1);
    let snapshot: &BudgetCategory = &s.category_breakdown[0].category;
    assert_eq!(snapshot.name, "Old");
    assert!(!snapshot.is_active);
}

#[test]
fn transactions_of_unknown_categories_count_towards_totals_only() {
    let mut categories = CategoryStore::new();
    category(&mut categories, "Food", CategoryType::Expense);
    let mut transactions = TransactionStore::new();
    spend(&mut transactions, 1, 100, "expense", day(2024, 3, 1));
    spend(&mut transactions, 77, 300, "expense", day(2024, 3, 1));
    let s: BudgetSummary = summarize(&categories, &transactions, &march());
    assert_eq!(s.total_expenses, 400);
    assert_eq!(s.category_breakdown.len(), 1);
    assert_eq!(s.category_breakdown[0].percentage, 2500);
}

#[test]
fn a_type_that_differs_from_the_category_type_is_accepted() {
    let mut categories = CategoryStore::new();
    category(&mut categories, "Salary", CategoryType::Income);
    let mut transactions = TransactionStore::new();
    spend(&mut transactions, 1, 100, "expense", day(2024, 3, 1));
    spend(&mut transactions, 1, 300, "income", day(2024, 3, 1));
    let s: BudgetSummary = summarize(&categories, &transactions, &march());
    assert_eq!(s.total_income, 300);
    assert_eq!(s.total_expenses, 100);
    assert_eq!(s.balance, 200);
    assert_eq!(s.category_breakdown[0].total, 400);
    assert_eq!(s.category_breakdown[0].percentage, 10000);
}

#[test]
fn the_largest_amounts_do_not_overflow() {
    let mut categories = CategoryStore::new();
    category(&mut categories, "A", CategoryType::Expense);
    category(&mut categories, "B", CategoryType::Income);
    let mut transactions = TransactionStore::new();
    for _ in 0..3 {
        spend(&mut transactions, 1, u64::MAX, "expense", day(2024, 3, 1));
    }
    spend(&mut transactions, 2, u64::MAX, "income", day(2024, 3, 1));
    let s: BudgetSummary = summarize(&categories, &transactions, &march());
    assert_eq!(s.total_expenses, 3 * (u64::MAX as u128));
    assert_eq!(s.total_income, u64::MAX as u128);
    assert_eq!(s.balance, -2 * (u64::MAX as i128));
    assert_eq!(s.category_breakdown[0].percentage, 7500);
    assert_eq!(s.category_breakdown[1].percentage, 2500);
}

#[test]
fn percentage_is_rounded_to_the_nearest_hundredth() {
    assert_eq!(percentage(1000, 1200), Some(8333));
    assert_eq!(percentage(200, 1200), Some(1667));
    assert_eq!(percentage(0, 1200), Some(0));
    assert_eq!(percentage(1200, 1200), Some(10000));
    assert_eq!(percentage(1, 3), Some(3333));
    assert_eq!(percentage(2, 3), Some(6667));
    assert_eq!(percentage(1, 2), Some(5000));
    assert_eq!(percentage(1, 20000), Some(1));
    assert_eq!(percentage(1, 20001), Some(0));
    assert_eq!(percentage(19999, 20000), Some(10000));
    assert_eq!(percentage(1, 8), Some(1250));
    assert_eq!(percentage(1, 16), Some(625));
    assert_eq!(percentage(1, 32), Some(313));
    assert_eq!(percentage(0, 0), Some(0));
}

#[test]
fn there_is_no_percentage_of_more_than_the_whole() {
    assert_eq!(percentage(1, 0), None);
    assert_eq!(percentage(1201, 1200), None);
    assert_eq!(percentage(u128::MAX, u128::MAX - 1), None);
}

#[test]
fn percentage_of_huge_totals_is_exact() {
    assert_eq!(percentage(u128::MAX, u128::MAX), Some(10000));
    assert_eq!(percentage(u128::MAX - 1, u128::MAX), Some(10000));
    assert_eq!(percentage(u128::MAX / 2, u128::MAX), Some(5000));
    assert_eq!(percentage(u128::MAX / 3, u128::MAX), Some(3333));
    assert_eq!(percentage(1, u128::MAX), Some(0));
    assert_eq!(percentage(1u128 << 126, 1u128 << 127), Some(5000));
}

#[test]
fn percentage_agrees_with_the_formula_on_small_totals() {
    for grand in 1u128..60 {
        for total in 0u128..=grand {
            let expected: u128 = (20000 * total + grand) / (2 * grand);
            assert_eq!(percentage(total, grand), Some(expected as u32));
        }
    }
}
