//! Monthly figures: income, expenses, balance and the share of each category.

use vstd::prelude::*;
use vstd::arithmetic::div_mod::lemma_fundamental_div_mod_converse;
use crate::category::{
    category_ids_ascend, category_models, BudgetCategory, CategoryModel, CategoryStore,
};
use crate::date::Period;
use crate::transaction::{
    lemma_transaction_count_bounded, transaction_models, BudgetTransaction, TransactionModel,
    TransactionStore, TransactionType,
};

verus! {

/// Whether a transaction counts towards the figures of `period`: it is dated
/// inside the period and its type is a known one.
pub open spec fn counted(t: TransactionModel, period: Period) -> bool {
    period.covers(t.date) && t.kind() != TransactionType::Unrecognized
}

/// What one transaction adds to the total of `kind` over `period`.
pub open spec fn share_by_type(t: TransactionModel, period: Period, kind: TransactionType) -> int {
    if period.covers(t.date) && t.kind() == kind {
        t.amount as int
    } else {
        0
    }
}

/// The sum of the amounts of the transactions of type `kind` dated inside
/// `period`.
pub open spec fn total_by_type(
    rows: Seq<TransactionModel>,
    period: Period,
    kind: TransactionType,
) -> int
    decreases rows.len(),
{
    if rows.len() == 0 {
        0
    } else {
        total_by_type(rows.drop_last(), period, kind) + share_by_type(rows.last(), period, kind)
    }
}

/// Income plus expenses over `period`: the whole that shares are taken of.
pub open spec fn grand_total(rows: Seq<TransactionModel>, period: Period) -> int {
    total_by_type(rows, period, TransactionType::Income) + total_by_type(
        rows,
        period,
        TransactionType::Expense,
    )
}

/// Whether a transaction counts towards category `category_id` over `period`.
pub open spec fn counted_in(t: TransactionModel, period: Period, category_id: i64) -> bool {
    counted(t, period) && t.category_id == category_id
}

/// The sum of the amounts of the counted transactions of one category.
pub open spec fn category_total(
    rows: Seq<TransactionModel>,
    period: Period,
    category_id: i64,
) -> int
    decreases rows.len(),
{
    if rows.len() == 0 {
        0
    } else {
        category_total(rows.drop_last(), period, category_id) + if counted_in(
            rows.last(),
            period,
            category_id,
        ) {
            rows.last().amount as int
        } else {
            0
        }
    }
}

/// The number of counted transactions of one category.
pub open spec fn category_count(
    rows: Seq<TransactionModel>,
    period: Period,
    category_id: i64,
) -> int
    decreases rows.len(),
{
    if rows.len() == 0 {
        0
    } else {
        category_count(rows.drop_last(), period, category_id) + if counted_in(
            rows.last(),
            period,
            category_id,
        ) {
            1int
        } else {
            0
        }
    }
}

/// No total exceeds what the rows could hold at most, a category's total is
/// part of the grand total, and its count is at most the number of rows.
pub proof fn lemma_totals_bounded(rows: Seq<TransactionModel>, period: Period, category_id: i64)
    ensures
        0 <= total_by_type(rows, period, TransactionType::Income),
        0 <= total_by_type(rows, period, TransactionType::Expense),
        grand_total(rows, period) <= rows.len() * 0xffff_ffff_ffff_ffff,
        0 <= category_total(rows, period, category_id) <= grand_total(rows, period),
        0 <= category_count(rows, period, category_id) <= rows.len(),
        category_count(rows, period, category_id) == 0 ==> category_total(
            rows,
            period,
            category_id,
        ) == 0,
    decreases rows.len(),
{
    if rows.len() > 0 {
        lemma_totals_bounded(rows.drop_last(), period, category_id);
    }
}

/// Where no transaction is dated inside `period`, every figure is zero.
pub proof fn lemma_empty_period(rows: Seq<TransactionModel>, period: Period, category_id: i64)
    requires
        forall|i: int| 0 <= i < rows.len() ==> !period.covers(#[trigger] rows[i].date),
    ensures
        total_by_type(rows, period, TransactionType::Income) == 0,
        total_by_type(rows, period, TransactionType::Expense) == 0,
        category_total(rows, period, category_id) == 0,
        category_count(rows, period, category_id) == 0,
    decreases rows.len(),
{
    if rows.len() > 0 {
        lemma_empty_period(rows.drop_last(), period, category_id);
    }
}

/// A transaction of unrecognized type adds nothing to any figure.
pub proof fn lemma_unrecognized_adds_nothing(
    rows: Seq<TransactionModel>,
    t: TransactionModel,
    period: Period,
    category_id: i64,
)
    requires
        t.kind() == TransactionType::Unrecognized,
    ensures
        total_by_type(rows.push(t), period, TransactionType::Income) == total_by_type(
            rows,
            period,
            TransactionType::Income,
        ),
        total_by_type(rows.push(t), period, TransactionType::Expense) == total_by_type(
            rows,
            period,
            TransactionType::Expense,
        ),
        category_total(rows.push(t), period, category_id) == category_total(
            rows,
            period,
            category_id,
        ),
        category_count(rows.push(t), period, category_id) == category_count(
            rows,
            period,
            category_id,
        ),
{
    assert(rows.push(t).drop_last() =~= rows);
}

/// The share of `total` in `grand`, in hundredths of a percent, rounded to
/// the nearest with halves rounded up; 0 where `grand` is 0.
pub open spec fn percentage_of(total: int, grand: int) -> int {
    if grand > 0 {
        (20000 * total + grand) / (2 * grand)
    } else {
        0
    }
}

/// Ten times `r` divided by `g`: quotient and remainder.
fn times_ten_divided(r: u128, g: u128) -> (qr: (u32, u128))
    requires
        r < g,
    ensures
        10 * r == qr.0 * g + qr.1,
        qr.0 <= 9,
        qr.1 < g,
{
    let mut d: u32 = 0;
    let mut acc: u128 = 0;
    let mut i: u32 = 0;
    while i < 10
        invariant
            r < g,
            i <= 10,
            d <= i,
            acc < g,
            i * r == d * g + acc,
        decreases 10 - i,
    {
        proof {
            assert((i + 1) * r == i * r + r) by (nonlinear_arith);
            assert((d + 1) * g == d * g + g) by (nonlinear_arith);
        }
        if acc >= g - r {
            acc = acc - (g - r);
            d = d + 1;
        } else {
            acc = acc + r;
        }
        i = i + 1;
    }
    proof {
        if d == 10 {
            assert(10 * r < 10 * g);
            assert(false);
        }
    }
    (d, acc)
}

/// The share of `total` in `grand`, in hundredths of a percent, where
/// `total` is a part of `grand`.
///
/// The division is carried out digit by digit, so no intermediate value
/// exceeds twice `grand`, whatever the size of the totals.
fn share(total: u128, grand: u128) -> (p: u32)
    requires
        total <= grand,
    ensures
        p == percentage_of(total as int, grand as int),
        p <= 10000,
{
    if grand == 0 {
        return 0;
    }
    if total == grand {
        proof {
            assert(20000 * total + grand == 10000 * (2 * grand) + grand);
            lemma_fundamental_div_mod_converse(
                20000 * total + grand,
                2 * grand,
                10000,
                grand as int,
            );
        }
        return 10000;
    }
    let mut q: u32 = 0;
    let mut r: u128 = total;
    let mut k: u32 = 0;
    let ghost mut scale: int = 1;
    while k < 4
        invariant
            0 < grand,
            k <= 4,
            r < grand,
            scale == (if k == 0 {
                1int
            } else if k == 1 {
                10int
            } else if k == 2 {
                100int
            } else if k == 3 {
                1000int
            } else {
                10000int
            }),
            q < scale,
            scale * total == q * grand + r,
        decreases 4 - k,
    {
        let (d, r2) = times_ten_divided(r, grand);
        proof {
            assert((10 * scale) * total == 10 * (scale * total)) by (nonlinear_arith);
            assert((q * 10 + d) * grand == 10 * (q * grand) + d * grand) by (nonlinear_arith);
            scale = 10 * scale;
        }
        q = q * 10 + d;
        r = r2;
        k = k + 1;
    }
    let ghost x = 20000 * total + grand;
    if r >= grand - r {
        proof {
            assert(x == (2 * grand) * (q + 1) + (2 * r - grand)) by (nonlinear_arith)
                requires
                    x == 20000 * total + grand,
                    10000 * total == q * grand + r,
            ;
            lemma_fundamental_div_mod_converse(x, 2 * grand, q + 1, 2 * r - grand);
        }
        q + 1
    } else {
        proof {
            assert(x == (2 * grand) * q + (2 * r + grand)) by (nonlinear_arith)
                requires
                    x == 20000 * total + grand,
                    10000 * total == q * grand + r,
            ;
            lemma_fundamental_div_mod_converse(x, 2 * grand, q as int, 2 * r + grand);
        }
        q
    }
}

/// The share of `total` in `grand`, in hundredths of a percent: 8333 stands
/// for 83.33 %. Where `total` is no part of `grand`, being greater, there is
/// no share.
pub fn percentage(total: u128, grand: u128) -> (p: Option<u32>)
    ensures
        p is Some <==> total <= grand,
        p is Some ==> p->Some_0 == percentage_of(total as int, grand as int) && p->Some_0 <= 10000,
{
    if total <= grand {
        Some(share(total, grand))
    } else {
        None
    }
}

/// The figures of one category over a period.
///
/// `total` is in minor currency units and `percentage` in hundredths of a
/// percent: 8333 stands for 83.33 %.
#[derive(Clone, Debug, PartialEq, Eq)]
pub struct CategoryBreakdown {
    pub category: BudgetCategory,
    pub total: u128,
    pub transactions: i64,
    pub percentage: u32,
}

/// The mathematical value of a breakdown entry.
pub struct BreakdownModel {
    pub category: CategoryModel,
    pub total: u128,
    pub transactions: i64,
    pub percentage: u32,
}

impl View for CategoryBreakdown {
    type V = BreakdownModel;

    open spec fn view(&self) -> BreakdownModel {
        BreakdownModel {
            category: self.category@,
            total: self.total,
            transactions: self.transactions,
            percentage: self.percentage,
        }
    }
}

/// The models of a run of breakdown entries, in the same order.
pub open spec fn breakdown_models(entries: Seq<CategoryBreakdown>) -> Seq<BreakdownModel> {
    entries.map_values(|e: CategoryBreakdown| e@)
}

/// The figures of a period. Totals and balance are in minor currency units.
#[derive(Clone, Debug, PartialEq, Eq)]
pub struct BudgetSummary {
    pub total_income: u128,
    pub total_expenses: u128,
    pub balance: i128,
    pub category_breakdown: Vec<CategoryBreakdown>,
}

/// The mathematical value of a summary.
pub struct SummaryModel {
    pub total_income: u128,
    pub total_expenses: u128,
    pub balance: i128,
    pub category_breakdown: Seq<BreakdownModel>,
}

impl View for BudgetSummary {
    type V = SummaryModel;

    open spec fn view(&self) -> SummaryModel {
        SummaryModel {
            total_income: self.total_income,
            total_expenses: self.total_expenses,
            balance: self.balance,
            category_breakdown: breakdown_models(self.category_breakdown@),
        }
    }
}

/// The order of the breakdown: greater totals first, and among equal totals
/// the category created first.
pub open spec fn ranks_before(a: BreakdownModel, b: BreakdownModel) -> bool {
    a.total > b.total || (a.total == b.total && a.category.id < b.category.id)
}

/// The figures of entry `e` are those of its category over `period`, and the
/// category has at least one counted transaction there.
pub open spec fn entry_figures(
    e: BreakdownModel,
    rows: Seq<TransactionModel>,
    period: Period,
) -> bool {
    &&& e.transactions > 0
    &&& e.transactions == category_count(rows, period, e.category.id)
    &&& e.total == category_total(rows, period, e.category.id)
    &&& e.percentage == percentage_of(e.total as int, grand_total(rows, period))
}

/// Category `c` has an entry among `entries`.
pub open spec fn listed(entries: Seq<BreakdownModel>, c: CategoryModel) -> bool {
    exists|i: int| 0 <= i < entries.len() && (#[trigger] entries[i]).category == c
}

/// `entries` is the breakdown of `rows` over `period`: one entry, with the
/// right figures, for each category of `categories` that has a counted
/// transaction, and no other; in ranking order.
pub open spec fn is_breakdown(
    entries: Seq<BreakdownModel>,
    categories: Seq<CategoryModel>,
    rows: Seq<TransactionModel>,
    period: Period,
) -> bool {
    &&& forall|i: int|
        0 <= i < entries.len() ==> categories.contains((#[trigger] entries[i]).category)
            && entry_figures(entries[i], rows, period)
    &&& forall|j: int|
        0 <= j < categories.len() && category_count(rows, period, (#[trigger] categories[j]).id)
            > 0 ==> listed(entries, categories[j])
    &&& forall|i: int, k: int|
        0 <= i < k < entries.len() ==> ranks_before(#[trigger] entries[i], #[trigger] entries[k])
}

/// The sum of the amounts of type `kind` dated inside `period`.
fn sum_by_type(rows: &Vec<BudgetTransaction>, period: &Period, kind: TransactionType) -> (total:
    u128)
    ensures
        total == total_by_type(transaction_models(rows@), *period, kind),
{
    let ghost models = transaction_models(rows@);
    let mut total: u128 = 0;
    let mut k: usize = 0;
    while k < rows.len()
        invariant
            k <= rows.len(),
            models == transaction_models(rows@),
            total == total_by_type(models.take(k as int), *period, kind),
            total <= k * 0xffff_ffff_ffff_ffff,
        decreases rows.len() - k,
    {
        let t = &rows[k];
        proof {
            assert(models.take(k + 1).drop_last() =~= models.take(k as int));
        }
        if period.contains(&t.date) && t.kind() == kind {
            total = total + t.amount as u128;
        }
        k = k + 1;
    }
    proof {
        assert(models.take(rows.len() as int) =~= models);
    }
    total
}

/// The total and the number of the counted transactions of one category.
fn sum_category(rows: &Vec<BudgetTransaction>, period: &Period, category_id: i64) -> (r: (
    u128,
    usize,
))
    ensures
        r.0 == category_total(transaction_models(rows@), *period, category_id),
        r.1 == category_count(transaction_models(rows@), *period, category_id),
{
    let ghost models = transaction_models(rows@);
    let mut total: u128 = 0;
    let mut count: usize = 0;
    let mut k: usize = 0;
    while k < rows.len()
        invariant
            k <= rows.len(),
            models == transaction_models(rows@),
            total == category_total(models.take(k as int), *period, category_id),
            count == category_count(models.take(k as int), *period, category_id),
            total <= k * 0xffff_ffff_ffff_ffff,
            count <= k,
        decreases rows.len() - k,
    {
        let t = &rows[k];
        proof {
            assert(models.take(k + 1).drop_last() =~= models.take(k as int));
        }
        let known = match t.kind() {
            TransactionType::Unrecognized => false,
            _ => true,
        };
        if known && t.category_id == category_id && period.contains(&t.date) {
            total = total + t.amount as u128;
            count = count + 1;
        }
        k = k + 1;
    }
    proof {
        assert(models.take(rows.len() as int) =~= models);
    }
    (total, count)
}

/// Entry `e` stands for one of the first `j` categories.
pub open spec fn drawn_from(e: BreakdownModel, categories: Seq<CategoryModel>, j: int) -> bool {
    exists|m: int| 0 <= m < j && #[trigger] categories[m] == e.category
}

/// Where an entry with the given total goes: behind every entry whose total
/// is at least as great.
fn insertion_point(entries: &Vec<CategoryBreakdown>, total: u128) -> (pos: usize)
    ensures
        pos <= entries.len(),
        forall|i: int| 0 <= i < pos ==> (#[trigger] entries[i]).total >= total,
        pos < entries.len() ==> entries[pos as int].total < total,
{
    let mut pos: usize = 0;
    while pos < entries.len() && entries[pos].total >= total
        invariant
            pos <= entries.len(),
            forall|i: int| 0 <= i < pos ==> (#[trigger] entries[i]).total >= total,
        decreases entries.len() - pos,
    {
        pos = pos + 1;
    }
    pos
}

/// The summary without any transaction: all figures zero, no entry.
pub open spec fn empty_summary() -> SummaryModel {
    SummaryModel {
        total_income: 0,
        total_expenses: 0,
        balance: 0,
        category_breakdown: Seq::empty(),
    }
}

/// `entries` is the breakdown as far as the first `j` categories go: each
/// entry has the right figures and stands for one of them, each of them that
/// has a counted transaction has an entry, and the entries are in ranking
/// order.
pub open spec fn is_breakdown_upto(
    entries: Seq<BreakdownModel>,
    categories: Seq<CategoryModel>,
    rows: Seq<TransactionModel>,
    period: Period,
    j: int,
) -> bool {
    &&& forall|i: int|
        0 <= i < entries.len() ==> entry_figures(#[trigger] entries[i], rows, period)
            && entries[i].percentage <= 10000 && drawn_from(entries[i], categories, j)
    &&& forall|m: int|
        0 <= m < j && category_count(rows, period, (#[trigger] categories[m]).id) > 0 ==> listed(
            entries,
            categories[m],
        )
    &&& forall|i: int, k: int|
        0 <= i < k < entries.len() ==> ranks_before(#[trigger] entries[i], #[trigger] entries[k])
}

/// A category without counted transactions leaves the breakdown as it is.
proof fn lemma_breakdown_skips(
    entries: Seq<BreakdownModel>,
    categories: Seq<CategoryModel>,
    rows: Seq<TransactionModel>,
    period: Period,
    j: int,
)
    requires
        0 <= j < categories.len(),
        is_breakdown_upto(entries, categories, rows, period, j),
        category_count(rows, period, categories[j].id) == 0,
    ensures
        is_breakdown_upto(entries, categories, rows, period, j + 1),
{
    assert forall|i: int| 0 <= i < entries.len() implies drawn_from(
        #[trigger] entries[i],
        categories,
        j + 1,
    ) by {
        let m = choose|m: int| 0 <= m < j && #[trigger] categories[m] == entries[i].category;
        assert(categories[m] == entries[i].category);
    }
}

/// The entry of the next category, put behind the entries whose total is at
/// least as great, extends the breakdown by that category.
proof fn lemma_breakdown_grows(
    entries: Seq<BreakdownModel>,
    e: BreakdownModel,
    pos: int,
    categories: Seq<CategoryModel>,
    last_id: i64,
    rows: Seq<TransactionModel>,
    period: Period,
    j: int,
)
    requires
        0 <= j < categories.len(),
        category_ids_ascend(categories, last_id),
        is_breakdown_upto(entries, categories, rows, period, j),
        e.category == categories[j],
        entry_figures(e, rows, period),
        e.percentage <= 10000,
        0 <= pos <= entries.len(),
        forall|i: int| 0 <= i < pos ==> (#[trigger] entries[i]).total >= e.total,
        pos < entries.len() ==> entries[pos].total < e.total,
    ensures
        is_breakdown_upto(entries.insert(pos, e), categories, rows, period, j + 1),
{
    let after = entries.insert(pos, e);
    assert(after.len() == entries.len() + 1);
    assert(after[pos] == e);
    assert forall|i: int| 0 <= i < after.len() && i != pos implies #[trigger] after[i]
        == entries[if i < pos { i } else { i - 1 }] by {}
    assert(drawn_from(e, categories, j + 1));
    assert forall|i: int| 0 <= i < after.len() implies entry_figures(
        #[trigger] after[i],
        rows,
        period,
    ) && after[i].percentage <= 10000 && drawn_from(after[i], categories, j + 1) by {
        if i != pos {
            let old_i = if i < pos { i } else { i - 1 };
            let m = choose|m: int|
                0 <= m < j && #[trigger] categories[m] == entries[old_i].category;
            assert(categories[m] == after[i].category);
        }
    }
    assert forall|m: int|
        0 <= m < j + 1 && category_count(rows, period, (#[trigger] categories[m]).id)
            > 0 implies listed(after, categories[m]) by {
        if m == j {
            assert(after[pos].category == categories[m]);
        } else {
            let i = choose|i: int|
                0 <= i < entries.len() && (#[trigger] entries[i]).category == categories[m];
            let new_i = if i < pos { i } else { i + 1 };
            assert(after[new_i].category == categories[m]);
        }
    }
    assert forall|i: int, k: int| 0 <= i < k < after.len() implies ranks_before(
        #[trigger] after[i],
        #[trigger] after[k],
    ) by {
        if k == pos {
            let m = choose|m: int| 0 <= m < j && #[trigger] categories[m] == entries[i].category;
            assert(categories[m].id < categories[j].id);
        } else if i == pos {
            if pos < k - 1 {
                assert(ranks_before(entries[pos], entries[k - 1]));
            }
        } else {
            let old_i = if i < pos { i } else { i - 1 };
            let old_k = if k < pos { k } else { k - 1 };
            assert(ranks_before(entries[old_i], entries[old_k]));
        }
    }
}

/// A breakdown that went through all categories is the breakdown.
proof fn lemma_breakdown_complete(
    entries: Seq<BreakdownModel>,
    categories: Seq<CategoryModel>,
    rows: Seq<TransactionModel>,
    period: Period,
)
    requires
        is_breakdown_upto(entries, categories, rows, period, categories.len() as int),
    ensures
        is_breakdown(entries, categories, rows, period),
{
    assert forall|i: int| 0 <= i < entries.len() implies categories.contains(
        (#[trigger] entries[i]).category,
    ) by {
        let m = choose|m: int|
            0 <= m < categories.len() && #[trigger] categories[m] == entries[i].category;
        assert(categories[m] == entries[i].category);
    }
}

/// The figures of `period`.
///
/// Income and expenses are summed over the transactions dated inside the
/// period; those of unrecognized type count towards nothing. The breakdown
/// holds one entry for each category, active or not, that has a counted
/// transaction in the period, with greater totals first. A transaction whose
/// category is not in the store counts towards the totals and has no entry.
pub fn summarize(
    categories: &CategoryStore,
    transactions: &TransactionStore,
    period: &Period,
) -> (s: BudgetSummary)
    ensures
        s.total_income == total_by_type(transactions@, *period, TransactionType::Income),
        s.total_expenses == total_by_type(transactions@, *period, TransactionType::Expense),
        s.balance == s.total_income - s.total_expenses,
        is_breakdown(s@.category_breakdown, categories@, transactions@, *period),
        (forall|i: int|
            0 <= i < transactions@.len() ==> !period.covers((#[trigger] transactions@[i]).date))
            ==> s@ == empty_summary(),
        forall|i: int|
            0 <= i < s@.category_breakdown.len() ==> (
            #[trigger] s@.category_breakdown[i]).percentage <= 10000,
        grand_total(transactions@, *period) == 0 ==> forall|i: int|
            0 <= i < s@.category_breakdown.len() ==> (
            #[trigger] s@.category_breakdown[i]).percentage == 0,
{
    let rows = transactions.records();
    let cats = categories.records();
    let ghost tm = transactions@;
    let ghost cm = categories@;
    let ghost last = categories.last_id();
    proof {
        lemma_transaction_count_bounded(tm, transactions.last_id());
        lemma_totals_bounded(tm, *period, 0);
    }
    let income = sum_by_type(rows, period, TransactionType::Income);
    let expenses = sum_by_type(rows, period, TransactionType::Expense);
    let grand = income + expenses;
    let balance = income as i128 - expenses as i128;
    let mut breakdown: Vec<CategoryBreakdown> = Vec::new();
    let mut j: usize = 0;
    while j < cats.len()
        invariant
            j <= cats.len(),
            cm == category_models(cats@),
            tm == transaction_models(rows@),
            category_ids_ascend(cm, last),
            grand == grand_total(tm, *period),
            tm.len() <= i64::MAX,
            is_breakdown_upto(breakdown_models(breakdown@), cm, tm, *period, j as int),
        decreases cats.len() - j,
    {
        let c = &cats[j];
        let ghost before = breakdown_models(breakdown@);
        let (total, count) = sum_category(rows, period, c.id);
        proof {
            lemma_totals_bounded(tm, *period, c.id);
            assert(cm[j as int] == c@);
        }
        if count > 0 {
            let pct = share(total, grand);
            let entry = CategoryBreakdown {
                category: c.snapshot(),
                total,
                transactions: count as i64,
                percentage: pct,
            };
            let ghost e = entry@;
            let pos = insertion_point(&breakdown, total);
            breakdown.insert(pos, entry);
            proof {
                assert(breakdown_models(breakdown@) =~= before.insert(pos as int, e));
                lemma_breakdown_grows(before, e, pos as int, cm, last, tm, *period, j as int);
            }
        } else {
            proof {
                lemma_breakdown_skips(before, cm, tm, *period, j as int);
            }
        }
        j = j + 1;
    }
    let s = BudgetSummary {
        total_income: income,
        total_expenses: expenses,
        balance,
        category_breakdown: breakdown,
    };
    proof {
        let entries = s@.category_breakdown;
        lemma_breakdown_complete(entries, cm, tm, *period);
        if forall|i: int| 0 <= i < tm.len() ==> !period.covers((#[trigger] tm[i]).date) {
            lemma_empty_period(tm, *period, 0);
            if entries.len() > 0 {
                lemma_empty_period(tm, *period, entries[0].category.id);
            }
            assert(entries =~= Seq::<BreakdownModel>::empty());
        }
    }
    s
}

} // verus!
