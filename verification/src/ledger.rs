//! The ledger: categories and transactions together, and the operations that
//! callers reach it by.

use vstd::prelude::*;
use crate::category::{
    category_models, deactivated, default_category_row, has_category, is_active_listing,
    renew_rows, BudgetCategory, CategoryModel, CategoryStore, CategoryType,
    DEFAULT_CATEGORY_COUNT,
};
use crate::clock::current_instant;
use crate::date::{first_of_next_month, resolve, Date, Period};
use crate::error::BudgetError;
use crate::summary::{
    empty_summary, grand_total, is_breakdown, summarize, total_by_type, BudgetSummary,
};
use crate::text::text_of;
use crate::transaction::{
    clear_notes_rows, has_transaction, is_period_listing, revise_rows, transaction_models,
    without_transaction,
    BudgetTransaction, TransactionModel, TransactionStore, TransactionType, TransactionUpdate,
};

verus! {

/// A ledger: the categories and the transactions filed under them.
///
/// Nothing ties a transaction to an existing category, nor its type to the
/// type of its category: both stores accept what they are given.
pub struct Ledger {
    pub categories: CategoryStore,
    pub transactions: TransactionStore,
}

/// The interval of the given month.
pub open spec fn month_of(month: u32, year: i32) -> Period {
    Period {
        start: Date { year: year as i64, month, day: 1 },
        end: first_of_next_month(month, year),
    }
}

impl Ledger {
    /// A ledger without categories or transactions.
    pub fn new() -> (r: Ledger)
        ensures
            r.categories@ == Seq::<CategoryModel>::empty(),
            r.categories.last_id() == 0,
            r.transactions@ == Seq::<TransactionModel>::empty(),
            r.transactions.last_id() == 0,
    {
        Ledger { categories: CategoryStore::new(), transactions: TransactionStore::new() }
    }
}

/// The active categories, ordered by name.
pub fn get_budget_categories(ledger: &Ledger) -> (r: Vec<BudgetCategory>)
    ensures
        is_active_listing(category_models(r@), ledger.categories@),
{
    ledger.categories.list_active()
}

/// Adds an active category, stamped with the current instant, and returns
/// its identity. An empty name is refused with `InvalidArgument`; once the
/// identities are used up, `StorageError` is returned.
pub fn create_budget_category(
    ledger: &mut Ledger,
    name: String,
    category_type: CategoryType,
    color: String,
    icon: Option<String>,
    parent_id: Option<i64>,
) -> (r: Result<i64, BudgetError>)
    ensures
        final(ledger).transactions == old(ledger).transactions,
        name@.len() == 0 ==> r == Err::<i64, BudgetError>(BudgetError::InvalidArgument),
        name@.len() > 0 && old(ledger).categories.last_id() == i64::MAX ==> r == Err::<
            i64,
            BudgetError,
        >(BudgetError::StorageError),
        name@.len() > 0 && old(ledger).categories.last_id() < i64::MAX ==> r is Ok,
        r is Err ==> final(ledger).categories@ == old(ledger).categories@,
        r is Err ==> final(ledger).categories.last_id() == old(ledger).categories.last_id(),
        r is Ok ==> {
            let stamp = final(ledger).categories@.last().created_at;
            &&& r->Ok_0 == old(ledger).categories.last_id() + 1
            &&& final(ledger).categories.last_id() == r->Ok_0
            &&& final(ledger).categories@ == old(ledger).categories@.push(
                CategoryModel {
                    id: r->Ok_0,
                    name: name@,
                    category_type,
                    color: color@,
                    icon: text_of(icon),
                    parent_id,
                    is_active: true,
                    created_at: stamp,
                    updated_at: stamp,
                },
            )
        },
{
    let now = current_instant();
    ledger.categories.create_at(name, category_type, color, icon, parent_id, now)
}

/// Gives category `id` new descriptive fields and stamps it with the current
/// instant. An empty name is refused with `InvalidArgument`, an unknown `id`
/// with `NotFound`.
pub fn update_budget_category(
    ledger: &mut Ledger,
    id: i64,
    name: String,
    category_type: CategoryType,
    color: String,
    icon: Option<String>,
    parent_id: Option<i64>,
) -> (r: Result<(), BudgetError>)
    ensures
        final(ledger).transactions == old(ledger).transactions,
        final(ledger).categories.last_id() == old(ledger).categories.last_id(),
        name@.len() == 0 ==> r == Err::<(), BudgetError>(BudgetError::InvalidArgument),
        name@.len() > 0 && !has_category(old(ledger).categories@, id) ==> r == Err::<
            (),
            BudgetError,
        >(BudgetError::NotFound),
        name@.len() > 0 && has_category(old(ledger).categories@, id) ==> r is Ok,
        r is Err ==> final(ledger).categories@ == old(ledger).categories@,
        r is Ok ==> exists|now: i64|
            final(ledger).categories@ == #[trigger] renew_rows(
                old(ledger).categories@,
                id,
                name@,
                category_type,
                color@,
                text_of(icon),
                parent_id,
                now,
            ),
{
    let now = current_instant();
    ledger.categories.update_at(id, name, category_type, color, icon, parent_id, now)
}

/// Marks category `id` inactive, stamps it with the current instant, and
/// returns the number of rows this touched, 0 where there is no such
/// category. Its transactions stay.
pub fn delete_budget_category(ledger: &mut Ledger, id: i64) -> (touched: usize)
    ensures
        final(ledger).transactions == old(ledger).transactions,
        final(ledger).categories.last_id() == old(ledger).categories.last_id(),
        exists|now: i64|
            final(ledger).categories@ == #[trigger] deactivated(old(ledger).categories@, id, now),
        touched == (if has_category(old(ledger).categories@, id) {
            1usize
        } else {
            0usize
        }),
        !has_category(old(ledger).categories@, id) ==> final(ledger).categories@ == old(
            ledger
        ).categories@,
{
    let now = current_instant();
    ledger.categories.soft_delete_at(id, now)
}

/// Offers a ledger that never held a category the default ones, stamped
/// with the current instant, and returns how many were created: all of
/// them, or none where the ledger holds any category, active or not.
pub fn initialize_default_categories(ledger: &mut Ledger) -> (created: usize)
    ensures
        final(ledger).transactions == old(ledger).transactions,
        old(ledger).categories@.len() > 0 ==> {
            &&& created == 0
            &&& final(ledger).categories@ == old(ledger).categories@
            &&& final(ledger).categories.last_id() == old(ledger).categories.last_id()
        },
        old(ledger).categories@.len() == 0 ==> {
            let stamp = final(ledger).categories@[0].created_at;
            &&& created == DEFAULT_CATEGORY_COUNT
            &&& final(ledger).categories.last_id() == DEFAULT_CATEGORY_COUNT
            &&& final(ledger).categories@ == Seq::new(
                DEFAULT_CATEGORY_COUNT as nat,
                |k: int| default_category_row(k, stamp),
            )
        },
{
    let now = current_instant();
    ledger.categories.seed_defaults_at(now)
}

/// The transactions of the given month, later dates first. A month
/// outside 1 to 12 is refused with `InvalidArgument`.
pub fn get_budget_transactions(ledger: &Ledger, month: u32, year: i32) -> (r: Result<
    Vec<BudgetTransaction>,
    BudgetError,
>)
    ensures
        r is Ok <==> 1 <= month <= 12,
        r is Err ==> r->Err_0 == BudgetError::InvalidArgument,
        r is Ok ==> is_period_listing(
            transaction_models(r->Ok_0@),
            ledger.transactions@,
            month_of(month, year),
        ),
{
    match resolve(month, year) {
        Ok(period) => Ok(ledger.transactions.list_in_period(&period)),
        Err(e) => Err(e),
    }
}

/// Adds a transaction, stamped with the current instant, and returns its
/// identity. Once the identities are used up, `StorageError` is returned.
pub fn create_budget_transaction(
    ledger: &mut Ledger,
    category_id: i64,
    amount: u64,
    transaction_type: String,
    description: String,
    date: Date,
    notes: Option<String>,
) -> (r: Result<i64, BudgetError>)
    ensures
        final(ledger).categories == old(ledger).categories,
        r is Ok <==> old(ledger).transactions.last_id() < i64::MAX,
        r is Err ==> {
            &&& r->Err_0 == BudgetError::StorageError
            &&& final(ledger).transactions@ == old(ledger).transactions@
            &&& final(ledger).transactions.last_id() == old(ledger).transactions.last_id()
        },
        r is Ok ==> {
            let stamp = final(ledger).transactions@.last().created_at;
            &&& r->Ok_0 == old(ledger).transactions.last_id() + 1
            &&& final(ledger).transactions.last_id() == r->Ok_0
            &&& final(ledger).transactions@ == old(ledger).transactions@.push(
                TransactionModel {
                    id: r->Ok_0,
                    category_id,
                    amount,
                    transaction_type: transaction_type@,
                    description: description@,
                    date,
                    notes: text_of(notes),
                    created_at: stamp,
                    updated_at: stamp,
                },
            )
        },
{
    let now = current_instant();
    ledger.transactions.create_at(
        category_id,
        amount,
        transaction_type,
        description,
        date,
        notes,
        now,
    )
}

/// Applies a partial update to transaction `id` and stamps it with the
/// current instant. An update without fields is refused with `NoOpUpdate`,
/// an unknown `id` with `NotFound`; nothing is written then.
pub fn update_budget_transaction(ledger: &mut Ledger, id: i64, changes: &TransactionUpdate) -> (r:
    Result<(), BudgetError>)
    ensures
        final(ledger).categories == old(ledger).categories,
        final(ledger).transactions.last_id() == old(ledger).transactions.last_id(),
        changes@.is_empty() ==> r == Err::<(), BudgetError>(BudgetError::NoOpUpdate),
        !changes@.is_empty() && !has_transaction(old(ledger).transactions@, id) ==> r == Err::<
            (),
            BudgetError,
        >(BudgetError::NotFound),
        !changes@.is_empty() && has_transaction(old(ledger).transactions@, id) ==> r is Ok,
        r is Err ==> final(ledger).transactions@ == old(ledger).transactions@,
        r is Ok ==> exists|now: i64|
            final(ledger).transactions@ == #[trigger] revise_rows(
                old(ledger).transactions@,
                id,
                changes@,
                now,
            ),
{
    let now = current_instant();
    ledger.transactions.update_at(id, changes, now)
}

/// Removes the notes of transaction `id` and stamps it with the current
/// instant. An unknown `id` is refused with `NotFound`; nothing is written
/// then.
pub fn clear_budget_transaction_notes(ledger: &mut Ledger, id: i64) -> (r: Result<
    (),
    BudgetError,
>)
    ensures
        final(ledger).categories == old(ledger).categories,
        final(ledger).transactions.last_id() == old(ledger).transactions.last_id(),
        r is Ok <==> has_transaction(old(ledger).transactions@, id),
        r is Err ==> r->Err_0 == BudgetError::NotFound,
        r is Err ==> final(ledger).transactions@ == old(ledger).transactions@,
        r is Ok ==> exists|now: i64|
            final(ledger).transactions@ == #[trigger] clear_notes_rows(
                old(ledger).transactions@,
                id,
                now,
            ),
{
    let now = current_instant();
    ledger.transactions.clear_notes_at(id, now)
}

/// Removes transaction `id` for good and returns the number of rows removed,
/// 0 where there is no such transaction.
pub fn delete_budget_transaction(ledger: &mut Ledger, id: i64) -> (removed: usize)
    ensures
        final(ledger).categories == old(ledger).categories,
        final(ledger).transactions.last_id() == old(ledger).transactions.last_id(),
        final(ledger).transactions@ == without_transaction(old(ledger).transactions@, id),
        removed == (if has_transaction(old(ledger).transactions@, id) {
            1usize
        } else {
            0usize
        }),
        !has_transaction(old(ledger).transactions@, id) ==> final(ledger).transactions@ == old(
            ledger
        ).transactions@,
        !has_transaction(final(ledger).transactions@, id),
{
    ledger.transactions.delete(id)
}

/// The figures of the given month. A month outside 1 to 12 is refused
/// with `InvalidArgument`.
pub fn get_budget_summary(ledger: &Ledger, month: u32, year: i32) -> (r: Result<
    BudgetSummary,
    BudgetError,
>)
    ensures
        r is Ok <==> 1 <= month <= 12,
        r is Err ==> r->Err_0 == BudgetError::InvalidArgument,
        r is Ok ==> {
            let s = r->Ok_0;
            let rows = ledger.transactions@;
            let period = month_of(month, year);
            &&& s.total_income == total_by_type(rows, period, TransactionType::Income)
            &&& s.total_expenses == total_by_type(rows, period, TransactionType::Expense)
            &&& s.balance == s.total_income - s.total_expenses
            &&& is_breakdown(s@.category_breakdown, ledger.categories@, rows, period)
            &&& (forall|i: int| 0 <= i < rows.len() ==> !period.covers((#[trigger] rows[i]).date))
                ==> s@ == empty_summary()
            &&& forall|i: int|
                0 <= i < s@.category_breakdown.len() ==> (
                #[trigger] s@.category_breakdown[i]).percentage <= 10000
            &&& grand_total(rows, period) == 0 ==> forall|i: int|
                0 <= i < s@.category_breakdown.len() ==> (
                #[trigger] s@.category_breakdown[i]).percentage == 0
        },
{
    match resolve(month, year) {
        Ok(period) => Ok(summarize(&ledger.categories, &ledger.transactions, &period)),
        Err(e) => Err(e),
    }
}

} // verus!
