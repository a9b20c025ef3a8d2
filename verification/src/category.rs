//! Category records and the store that keeps them.

use vstd::prelude::*;
use crate::error::BudgetError;
use crate::text::{
    copy_text, lemma_bytes_order_total, lemma_bytes_order_transitive, text_before, text_of,
    text_precedes,
};
use vstd::string::StringExecFns;
use vstd::utf8::encode_utf8;

verus! {

/// Whether a category collects money coming in or money going out.
#[derive(Clone, Copy, Debug, PartialEq, Eq, Structural)]
pub enum CategoryType {
    Income,
    Expense,
}

impl CategoryType {
    /// The name by which the type is written: `income` or `expense`.
    pub open spec fn text(self) -> Seq<char> {
        match self {
            CategoryType::Income => "income"@,
            CategoryType::Expense => "expense"@,
        }
    }

    /// The name by which the type is written.
    pub fn as_text(&self) -> (r: &'static str)
        ensures
            r@ == self.text(),
    {
        match self {
            CategoryType::Income => "income",
            CategoryType::Expense => "expense",
        }
    }

    /// Reads a type from its name. Any text but `income` and `expense` is
    /// refused with `InvalidArgument`.
    pub fn from_text(text: &str) -> (r: Result<CategoryType, BudgetError>)
        ensures
            text@ == "income"@ ==> r == Ok::<CategoryType, BudgetError>(CategoryType::Income),
            text@ == "expense"@ ==> r == Ok::<CategoryType, BudgetError>(CategoryType::Expense),
            text@ != "income"@ && text@ != "expense"@ ==> r == Err::<CategoryType, BudgetError>(
                BudgetError::InvalidArgument,
            ),
    {
        proof {
            reveal_strlit("income");
            reveal_strlit("expense");
            assert("income"@.len() == 6 && "expense"@.len() == 7);
        }
        let given = String::from_str(text);
        if given == String::from_str("income") {
            Ok(CategoryType::Income)
        } else if given == String::from_str("expense") {
            Ok(CategoryType::Expense)
        } else {
            Err(BudgetError::InvalidArgument)
        }
    }
}

/// A user-defined category as the store holds it.
///
/// Timestamps are milliseconds since the Unix epoch.
#[derive(Clone, Debug, PartialEq, Eq)]
pub struct BudgetCategory {
    pub id: i64,
    pub name: String,
    pub category_type: CategoryType,
    pub color: String,
    pub icon: Option<String>,
    pub parent_id: Option<i64>,
    pub is_active: bool,
    pub created_at: i64,
    pub updated_at: i64,
}

/// The mathematical value of a category record.
pub struct CategoryModel {
    pub id: i64,
    pub name: Seq<char>,
    pub category_type: CategoryType,
    pub color: Seq<char>,
    pub icon: Option<Seq<char>>,
    pub parent_id: Option<i64>,
    pub is_active: bool,
    pub created_at: i64,
    pub updated_at: i64,
}

impl View for BudgetCategory {
    type V = CategoryModel;

    open spec fn view(&self) -> CategoryModel {
        CategoryModel {
            id: self.id,
            name: self.name@,
            category_type: self.category_type,
            color: self.color@,
            icon: text_of(self.icon),
            parent_id: self.parent_id,
            is_active: self.is_active,
            created_at: self.created_at,
            updated_at: self.updated_at,
        }
    }
}

impl BudgetCategory {
    /// A snapshot of the record, equal to it field by field.
    pub fn snapshot(&self) -> (r: BudgetCategory)
        ensures
            r@ == self@,
    {
        BudgetCategory {
            id: self.id,
            name: self.name.clone(),
            category_type: self.category_type,
            color: self.color.clone(),
            icon: copy_text(&self.icon),
            parent_id: self.parent_id,
            is_active: self.is_active,
            created_at: self.created_at,
            updated_at: self.updated_at,
        }
    }
}

/// The models of a run of category records, in the same order.
pub open spec fn category_models(rows: Seq<BudgetCategory>) -> Seq<CategoryModel> {
    rows.map_values(|c: BudgetCategory| c@)
}

/// Identities are positive and strictly increasing along the rows, and none
/// exceeds `last_id`.
pub open spec fn category_ids_ascend(rows: Seq<CategoryModel>, last_id: i64) -> bool {
    &&& 0 <= last_id
    &&& forall|i: int| 0 <= i < rows.len() ==> 1 <= #[trigger] rows[i].id <= last_id
    &&& forall|i: int, j: int| 0 <= i < j < rows.len() ==> rows[i].id < rows[j].id
}

/// Some row has identity `id`.
pub open spec fn has_category(rows: Seq<CategoryModel>, id: i64) -> bool {
    exists|i: int| 0 <= i < rows.len() && (#[trigger] rows[i]).id == id
}

/// Category `c` with its descriptive fields replaced at instant `now`.
/// Identity, the active flag and `created_at` stay.
pub open spec fn renewed(
    c: CategoryModel,
    name: Seq<char>,
    category_type: CategoryType,
    color: Seq<char>,
    icon: Option<Seq<char>>,
    parent_id: Option<i64>,
    now: i64,
) -> CategoryModel {
    CategoryModel { name, category_type, color, icon, parent_id, updated_at: now, ..c }
}

/// The rows after category `id` was given new descriptive fields.
pub open spec fn renew_rows(
    rows: Seq<CategoryModel>,
    id: i64,
    name: Seq<char>,
    category_type: CategoryType,
    color: Seq<char>,
    icon: Option<Seq<char>>,
    parent_id: Option<i64>,
    now: i64,
) -> Seq<CategoryModel> {
    rows.map_values(
        |c: CategoryModel|
            if c.id == id {
                renewed(c, name, category_type, color, icon, parent_id, now)
            } else {
                c
            },
    )
}

/// The rows after category `id` was marked inactive at instant `now`: the
/// category is inactive and stamped with `now`. Nothing else changes: no
/// other field of that category, no other category.
pub open spec fn deactivated(rows: Seq<CategoryModel>, id: i64, now: i64) -> Seq<CategoryModel> {
    rows.map_values(
        |c: CategoryModel|
            if c.id == id {
                CategoryModel { is_active: false, updated_at: now, ..c }
            } else {
                c
            },
    )
}

/// Marking a category inactive a second time does no harm: the category is
/// inactive after the first time and after the second, every other category
/// is as it was, and the store is as if the category had been marked once,
/// at the second instant. At one and the same instant the second time
/// changes nothing at all.
pub proof fn lemma_soft_delete_idempotent(
    rows: Seq<CategoryModel>,
    id: i64,
    first: i64,
    second: i64,
)
    ensures
        deactivated(deactivated(rows, id, first), id, second) == deactivated(rows, id, second),
        first == second ==> deactivated(deactivated(rows, id, first), id, second) == deactivated(
            rows,
            id,
            first,
        ),
        forall|i: int|
            0 <= i < rows.len() && (#[trigger] rows[i]).id == id ==> !deactivated(
                rows,
                id,
                first,
            )[i].is_active && !deactivated(deactivated(rows, id, first), id, second)[i].is_active,
        forall|i: int|
            0 <= i < rows.len() && (#[trigger] rows[i]).id != id ==> deactivated(rows, id, first)[i]
                == rows[i] && deactivated(deactivated(rows, id, first), id, second)[i] == rows[i],
{
    assert(deactivated(deactivated(rows, id, first), id, second) =~= deactivated(rows, id, second));
}

/// The order of a listing: by name in the order of bytes, and among equal
/// names the category created first.
pub open spec fn category_listed_before(a: CategoryModel, b: CategoryModel) -> bool {
    text_precedes(a.name, b.name) || (encode_utf8(a.name) == encode_utf8(b.name) && a.id < b.id)
}

/// `listing` holds exactly the active rows, in listing order.
pub open spec fn is_active_listing(listing: Seq<CategoryModel>, rows: Seq<CategoryModel>) -> bool {
    &&& forall|i: int|
        0 <= i < listing.len() ==> rows.contains(#[trigger] listing[i]) && listing[i].is_active
    &&& forall|m: int|
        0 <= m < rows.len() && (#[trigger] rows[m]).is_active ==> listing.contains(rows[m])
    &&& forall|i: int, k: int|
        0 <= i < k < listing.len() ==> category_listed_before(
            #[trigger] listing[i],
            #[trigger] listing[k],
        )
}

/// Row `c` is one of the first `k` rows.
pub open spec fn category_taken_from(c: CategoryModel, rows: Seq<CategoryModel>, k: int) -> bool {
    exists|m: int| 0 <= m < k && #[trigger] rows[m] == c
}

/// `listing` is the listing as far as the first `k` rows go.
pub open spec fn is_active_listing_upto(
    listing: Seq<CategoryModel>,
    rows: Seq<CategoryModel>,
    k: int,
) -> bool {
    &&& forall|i: int|
        0 <= i < listing.len() ==> category_taken_from(#[trigger] listing[i], rows, k)
            && listing[i].is_active
    &&& forall|m: int| 0 <= m < k && (#[trigger] rows[m]).is_active ==> listing.contains(rows[m])
    &&& forall|i: int, j: int|
        0 <= i < j < listing.len() ==> category_listed_before(
            #[trigger] listing[i],
            #[trigger] listing[j],
        )
}

/// An inactive row leaves the listing as it is.
proof fn lemma_active_listing_skips(listing: Seq<CategoryModel>, rows: Seq<CategoryModel>, k: int)
    requires
        0 <= k < rows.len(),
        is_active_listing_upto(listing, rows, k),
        !rows[k].is_active,
    ensures
        is_active_listing_upto(listing, rows, k + 1),
{
    assert forall|i: int| 0 <= i < listing.len() implies category_taken_from(
        #[trigger] listing[i],
        rows,
        k + 1,
    ) by {
        let m = choose|m: int| 0 <= m < k && #[trigger] rows[m] == listing[i];
        assert(rows[m] == listing[i]);
    }
}

/// The next row, put in front of the first listed row that its name
/// precedes, extends the listing by that row.
proof fn lemma_active_listing_grows(
    listing: Seq<CategoryModel>,
    pos: int,
    rows: Seq<CategoryModel>,
    last_id: i64,
    k: int,
)
    requires
        0 <= k < rows.len(),
        category_ids_ascend(rows, last_id),
        is_active_listing_upto(listing, rows, k),
        rows[k].is_active,
        0 <= pos <= listing.len(),
        forall|i: int| 0 <= i < pos ==> !text_precedes(rows[k].name, (#[trigger] listing[i]).name),
        pos < listing.len() ==> text_precedes(rows[k].name, listing[pos].name),
    ensures
        is_active_listing_upto(listing.insert(pos, rows[k]), rows, k + 1),
{
    let c = rows[k];
    let after = listing.insert(pos, c);
    assert(after.len() == listing.len() + 1);
    assert(after[pos] == c);
    assert forall|i: int| 0 <= i < after.len() && i != pos implies #[trigger] after[i]
        == listing[if i < pos { i } else { i - 1 }] by {}
    assert(category_taken_from(c, rows, k + 1));
    assert forall|i: int| 0 <= i < after.len() implies category_taken_from(
        #[trigger] after[i],
        rows,
        k + 1,
    ) && after[i].is_active by {
        if i != pos {
            let old_i = if i < pos { i } else { i - 1 };
            let m = choose|m: int| 0 <= m < k && #[trigger] rows[m] == listing[old_i];
            assert(rows[m] == after[i]);
        }
    }
    assert forall|m: int| 0 <= m < k + 1 && (#[trigger] rows[m]).is_active implies after.contains(
        rows[m],
    ) by {
        if m == k {
            assert(after[pos] == rows[m]);
        } else {
            let i = choose|i: int| 0 <= i < listing.len() && listing[i] == rows[m];
            let new_i = if i < pos { i } else { i + 1 };
            assert(after[new_i] == rows[m]);
        }
    }
    assert forall|i: int, j: int| 0 <= i < j < after.len() implies category_listed_before(
        #[trigger] after[i],
        #[trigger] after[j],
    ) by {
        if j == pos {
            let m = choose|m: int| 0 <= m < k && #[trigger] rows[m] == listing[i];
            assert(rows[m].id < rows[k].id);
            lemma_bytes_order_total(encode_utf8(listing[i].name), encode_utf8(c.name));
        } else if i == pos {
            if pos < j - 1 {
                assert(category_listed_before(listing[pos], listing[j - 1]));
                if text_precedes(listing[pos].name, listing[j - 1].name) {
                    lemma_bytes_order_transitive(
                        encode_utf8(c.name),
                        encode_utf8(listing[pos].name),
                        encode_utf8(listing[j - 1].name),
                    );
                }
            }
        } else {
            let old_i = if i < pos { i } else { i - 1 };
            let old_j = if j < pos { j } else { j - 1 };
            assert(category_listed_before(listing[old_i], listing[old_j]));
        }
    }
}

/// A listing that went through all rows is the listing.
proof fn lemma_active_listing_complete(listing: Seq<CategoryModel>, rows: Seq<CategoryModel>)
    requires
        is_active_listing_upto(listing, rows, rows.len() as int),
    ensures
        is_active_listing(listing, rows),
{
    assert forall|i: int| 0 <= i < listing.len() implies rows.contains(#[trigger] listing[i]) by {
        let m = choose|m: int| 0 <= m < rows.len() && #[trigger] rows[m] == listing[i];
        assert(rows[m] == listing[i]);
    }
}

/// Where a category named `name` goes in a listing: in front of the first
/// row that the name precedes.
fn category_listing_point(listing: &Vec<BudgetCategory>, name: &String) -> (pos: usize)
    ensures
        pos <= listing.len(),
        forall|i: int| 0 <= i < pos ==> !text_precedes(name@, (#[trigger] listing[i]).name@),
        pos < listing.len() ==> text_precedes(name@, listing[pos as int].name@),
{
    let mut pos: usize = 0;
    while pos < listing.len() && !text_before(name.as_str(), listing[pos].name.as_str())
        invariant
            pos <= listing.len(),
            forall|i: int| 0 <= i < pos ==> !text_precedes(name@, (#[trigger] listing[i]).name@),
        decreases listing.len() - pos,
    {
        pos = pos + 1;
    }
    pos
}

/// The position of the row with identity `id`.
fn category_position(rows: &Vec<BudgetCategory>, id: i64) -> (r: Option<usize>)
    ensures
        r is Some <==> has_category(category_models(rows@), id),
        r is Some ==> r->Some_0 < rows.len() && rows[r->Some_0 as int].id == id,
{
    let ghost models = category_models(rows@);
    let mut k: usize = 0;
    while k < rows.len()
        invariant
            k <= rows.len(),
            models == category_models(rows@),
            forall|i: int| 0 <= i < k ==> (#[trigger] models[i]).id != id,
        decreases rows.len() - k,
    {
        if rows[k].id == id {
            proof {
                assert(models[k as int].id == id);
            }
            return Some(k);
        }
        k = k + 1;
    }
    None
}

/// The number of categories that a new ledger is offered.
pub const DEFAULT_CATEGORY_COUNT: usize = 13;

/// The categories that a new ledger is offered: name, icon, colour and type
/// of each, in the order of their creation.
pub open spec fn default_categories() -> Seq<(Seq<char>, Seq<char>, Seq<char>, CategoryType)> {
    seq![
        ("Food & Dining"@, "\u{1F354}"@, "#FF6B6B"@, CategoryType::Expense),
        ("Shopping"@, "\u{1F6CD}\u{FE0F}"@, "#4ECDC4"@, CategoryType::Expense),
        ("Transportation"@, "\u{1F697}"@, "#45B7D1"@, CategoryType::Expense),
        ("Bills & Utilities"@, "\u{26A1}"@, "#FFA07A"@, CategoryType::Expense),
        ("Entertainment"@, "\u{1F3AC}"@, "#98D8C8"@, CategoryType::Expense),
        ("Healthcare"@, "\u{1F3E5}"@, "#F7DC6F"@, CategoryType::Expense),
        ("Education"@, "\u{1F4DA}"@, "#BB8FCE"@, CategoryType::Expense),
        ("Travel"@, "\u{2708}\u{FE0F}"@, "#85C1E2"@, CategoryType::Expense),
        ("Other"@, "\u{1F4E6}"@, "#95A5A6"@, CategoryType::Expense),
        ("Salary"@, "\u{1F4B0}"@, "#27AE60"@, CategoryType::Income),
        ("Freelance"@, "\u{1F4BC}"@, "#2ECC71"@, CategoryType::Income),
        ("Investments"@, "\u{1F4C8}"@, "#58D68D"@, CategoryType::Income),
        ("Other Income"@, "\u{1F4B5}"@, "#82E0AA"@, CategoryType::Income),
    ]
}

/// Default category `k` as the store holds it when created at instant `now`
/// in an empty store.
pub open spec fn default_category_row(k: int, now: i64) -> CategoryModel {
    CategoryModel {
        id: (k + 1) as i64,
        name: default_categories()[k].0,
        category_type: default_categories()[k].3,
        color: default_categories()[k].2,
        icon: Some(default_categories()[k].1),
        parent_id: None,
        is_active: true,
        created_at: now,
        updated_at: now,
    }
}

/// Name, icon, colour and type of default category `k`.
fn default_category(k: usize) -> (r: (&'static str, &'static str, &'static str, CategoryType))
    requires
        k < DEFAULT_CATEGORY_COUNT,
    ensures
        (r.0@, r.1@, r.2@, r.3) == default_categories()[k as int],
        r.0@.len() > 0,
{
    proof {
        reveal_strlit("Food & Dining");
        reveal_strlit("Shopping");
        reveal_strlit("Transportation");
        reveal_strlit("Bills & Utilities");
        reveal_strlit("Entertainment");
        reveal_strlit("Healthcare");
        reveal_strlit("Education");
        reveal_strlit("Travel");
        reveal_strlit("Other");
        reveal_strlit("Salary");
        reveal_strlit("Freelance");
        reveal_strlit("Investments");
        reveal_strlit("Other Income");
    }
    if k == 0 {
        ("Food & Dining", "\u{1F354}", "#FF6B6B", CategoryType::Expense)
    } else if k == 1 {
        ("Shopping", "\u{1F6CD}\u{FE0F}", "#4ECDC4", CategoryType::Expense)
    } else if k == 2 {
        ("Transportation", "\u{1F697}", "#45B7D1", CategoryType::Expense)
    } else if k == 3 {
        ("Bills & Utilities", "\u{26A1}", "#FFA07A", CategoryType::Expense)
    } else if k == 4 {
        ("Entertainment", "\u{1F3AC}", "#98D8C8", CategoryType::Expense)
    } else if k == 5 {
        ("Healthcare", "\u{1F3E5}", "#F7DC6F", CategoryType::Expense)
    } else if k == 6 {
        ("Education", "\u{1F4DA}", "#BB8FCE", CategoryType::Expense)
    } else if k == 7 {
        ("Travel", "\u{2708}\u{FE0F}", "#85C1E2", CategoryType::Expense)
    } else if k == 8 {
        ("Other", "\u{1F4E6}", "#95A5A6", CategoryType::Expense)
    } else if k == 9 {
        ("Salary", "\u{1F4B0}", "#27AE60", CategoryType::Income)
    } else if k == 10 {
        ("Freelance", "\u{1F4BC}", "#2ECC71", CategoryType::Income)
    } else if k == 11 {
        ("Investments", "\u{1F4C8}", "#58D68D", CategoryType::Income)
    } else {
        ("Other Income", "\u{1F4B5}", "#82E0AA", CategoryType::Income)
    }
}

/// The categories of a ledger, in the order in which they were created.
///
/// A category is never removed: deleting one marks it inactive.
pub struct CategoryStore {
    pub(crate) rows: Vec<BudgetCategory>,
    pub(crate) last_id: i64,
}

impl View for CategoryStore {
    type V = Seq<CategoryModel>;

    closed spec fn view(&self) -> Seq<CategoryModel> {
        category_models(self.rows@)
    }
}

impl CategoryStore {
    #[verifier::type_invariant]
    pub(crate) closed spec fn inv(self) -> bool {
        &&& category_ids_ascend(self@, self.last_id)
        &&& self@.len() == 0 ==> self.last_id == 0
    }

    /// The greatest identity handed out so far, 0 before the first.
    pub closed spec fn last_id(self) -> i64 {
        self.last_id
    }

    /// A store without categories.
    pub fn new() -> (r: CategoryStore)
        ensures
            r@ == Seq::<CategoryModel>::empty(),
            r.last_id() == 0,
    {
        CategoryStore { rows: Vec::new(), last_id: 0 }
    }

    /// Takes over rows read from elsewhere. They must come in the order of
    /// their identities, which must be positive and distinct; otherwise
    /// `InvalidArgument` is returned. The greatest identity becomes the
    /// last one handed out.
    pub fn from_rows(rows: Vec<BudgetCategory>) -> (r: Result<CategoryStore, BudgetError>)
        ensures
            r is Ok <==> exists|last: i64| category_ids_ascend(category_models(rows@), last),
            r is Err ==> r->Err_0 == BudgetError::InvalidArgument,
            r is Ok ==> {
                &&& r->Ok_0@ == category_models(rows@)
                &&& r->Ok_0.last_id() == (if rows.len() == 0 {
                    0
                } else {
                    rows@.last().id
                })
            },
    {
        let ghost models = category_models(rows@);
        let mut last: i64 = 0;
        let mut k: usize = 0;
        while k < rows.len()
            invariant
                k <= rows.len(),
                models == category_models(rows@),
                category_ids_ascend(models.take(k as int), last),
                last == (if k == 0 {
                    0
                } else {
                    rows@[k - 1].id
                }),
            decreases rows.len() - k,
        {
            if rows[k].id <= last {
                proof {
                    assert forall|any: i64| !category_ids_ascend(models, any) by {
                        if category_ids_ascend(models, any) {
                            if k > 0 {
                                assert(models[k - 1].id < models[k as int].id);
                            } else {
                                assert(1 <= models[0].id);
                            }
                        }
                    }
                }
                return Err(BudgetError::InvalidArgument);
            }
            last = rows[k].id;
            k = k + 1;
        }
        proof {
            assert(models.take(rows.len() as int) =~= models);
        }
        Ok(CategoryStore { rows, last_id: last })
    }

    /// Adds an active category created at instant `now` and returns its
    /// identity, the successor of the last one handed out. An empty name is
    /// refused with `InvalidArgument`. Once the identities are used up,
    /// `StorageError` is returned. A refusal leaves the store as it is.
    pub fn create_at(
        &mut self,
        name: String,
        category_type: CategoryType,
        color: String,
        icon: Option<String>,
        parent_id: Option<i64>,
        now: i64,
    ) -> (r: Result<i64, BudgetError>)
        ensures
            name@.len() == 0 ==> r == Err::<i64, BudgetError>(BudgetError::InvalidArgument),
            name@.len() > 0 && old(self).last_id() == i64::MAX ==> r == Err::<i64, BudgetError>(
                BudgetError::StorageError,
            ),
            name@.len() > 0 && old(self).last_id() < i64::MAX ==> r is Ok,
            r is Err ==> final(self)@ == old(self)@ && final(self).last_id() == old(self).last_id(),
            r is Ok ==> {
                &&& r->Ok_0 == old(self).last_id() + 1
                &&& final(self).last_id() == r->Ok_0
                &&& final(self)@ == old(self)@.push(
                    CategoryModel {
                        id: r->Ok_0,
                        name: name@,
                        category_type,
                        color: color@,
                        icon: text_of(icon),
                        parent_id,
                        is_active: true,
                        created_at: now,
                        updated_at: now,
                    },
                )
            },
    {
        proof {
            use_type_invariant(&*self);
        }
        if name.as_str().is_empty() {
            return Err(BudgetError::InvalidArgument);
        }
        if self.last_id == i64::MAX {
            return Err(BudgetError::StorageError);
        }
        let id = self.last_id + 1;
        let row = BudgetCategory {
            id,
            name,
            category_type,
            color,
            icon,
            parent_id,
            is_active: true,
            created_at: now,
            updated_at: now,
        };
        let ghost before = self@;
        let mut taken = CategoryStore::new();
        std::mem::swap(&mut taken, self);
        let CategoryStore { rows, last_id } = taken;
        let mut rows = rows;
        rows.push(row);
        proof {
            assert(category_models(rows@) =~= before.push(row@));
        }
        *self = CategoryStore { rows, last_id: id };
        Ok(id)
    }

    /// Offers a store that never held a category the default ones, created
    /// at instant `now`, and returns how many were created. A store that
    /// holds any category, active or not, is left as it is.
    pub fn seed_defaults_at(&mut self, now: i64) -> (created: usize)
        ensures
            old(self)@.len() > 0 ==> {
                &&& created == 0
                &&& final(self)@ == old(self)@
                &&& final(self).last_id() == old(self).last_id()
            },
            old(self)@.len() == 0 ==> {
                &&& created == DEFAULT_CATEGORY_COUNT
                &&& final(self).last_id() == DEFAULT_CATEGORY_COUNT
                &&& final(self)@ == Seq::new(
                    DEFAULT_CATEGORY_COUNT as nat,
                    |k: int| default_category_row(k, now),
                )
            },
    {
        proof {
            use_type_invariant(&*self);
        }
        if self.rows.len() > 0 {
            return 0;
        }
        let mut k: usize = 0;
        while k < DEFAULT_CATEGORY_COUNT
            invariant
                k <= DEFAULT_CATEGORY_COUNT,
                self.last_id() == k,
                self@ == Seq::new(k as nat, |i: int| default_category_row(i, now)),
            decreases DEFAULT_CATEGORY_COUNT - k,
        {
            let (name, icon, color, category_type) = default_category(k);
            let created = self.create_at(
                String::from_str(name),
                category_type,
                String::from_str(color),
                Some(String::from_str(icon)),
                None,
                now,
            );
            assert(created is Ok);
            k = k + 1;
        }
        DEFAULT_CATEGORY_COUNT
    }

    /// The category with identity `id`, active or not, if the store holds it.
    pub fn get(&self, id: i64) -> (r: Option<BudgetCategory>)
        ensures
            r is Some <==> has_category(self@, id),
            r is Some ==> self@.contains(r->Some_0@) && r->Some_0.id == id,
    {
        match category_position(&self.rows, id) {
            Some(i) => {
                proof {
                    assert(self@[i as int] == self.rows@[i as int]@);
                }
                Some(self.rows[i].snapshot())
            },
            None => None,
        }
    }

    /// Gives category `id` new descriptive fields at instant `now`. An empty
    /// name is refused with `InvalidArgument`, an unknown `id` with
    /// `NotFound`; a refusal leaves the store as it is. Whether the category
    /// is active does not matter and does not change.
    pub fn update_at(
        &mut self,
        id: i64,
        name: String,
        category_type: CategoryType,
        color: String,
        icon: Option<String>,
        parent_id: Option<i64>,
        now: i64,
    ) -> (r: Result<(), BudgetError>)
        ensures
            final(self).last_id() == old(self).last_id(),
            name@.len() == 0 ==> r == Err::<(), BudgetError>(BudgetError::InvalidArgument),
            name@.len() > 0 && !has_category(old(self)@, id) ==> r == Err::<(), BudgetError>(
                BudgetError::NotFound,
            ),
            name@.len() > 0 && has_category(old(self)@, id) ==> r is Ok,
            r is Err ==> final(self)@ == old(self)@,
            r is Ok ==> final(self)@ == renew_rows(
                old(self)@,
                id,
                name@,
                category_type,
                color@,
                text_of(icon),
                parent_id,
                now,
            ),
    {
        proof {
            use_type_invariant(&*self);
        }
        if name.as_str().is_empty() {
            return Err(BudgetError::InvalidArgument);
        }
        let ghost before = self@;
        match category_position(&self.rows, id) {
            None => Err(BudgetError::NotFound),
            Some(i) => {
                let row = BudgetCategory {
                    id,
                    name,
                    category_type,
                    color,
                    icon,
                    parent_id,
                    is_active: self.rows[i].is_active,
                    created_at: self.rows[i].created_at,
                    updated_at: now,
                };
                let mut taken = CategoryStore::new();
                std::mem::swap(&mut taken, self);
                let CategoryStore { rows, last_id } = taken;
                let mut rows = rows;
                rows.set(i, row);
                proof {
                    let after = category_models(rows@);
                    assert(before[i as int].id == id);
                    assert forall|k: int| 0 <= k < before.len() && k != i implies (
                    #[trigger] before[k]).id != id by {
                        if k < i {
                            assert(before[k].id < before[i as int].id);
                        } else {
                            assert(before[i as int].id < before[k].id);
                        }
                    }
                    assert(after =~= renew_rows(
                        before,
                        id,
                        name@,
                        category_type,
                        color@,
                        text_of(icon),
                        parent_id,
                        now,
                    ));
                }
                *self = CategoryStore { rows, last_id };
                Ok(())
            },
        }
    }

    /// Marks category `id` inactive at instant `now` and returns the number
    /// of rows this touched: 1, or 0 where the store holds no such category,
    /// which is no error. The category stays in the store, and so do its
    /// transactions and the categories below it. Doing it again leaves the
    /// category inactive and is no error either.
    pub fn soft_delete_at(&mut self, id: i64, now: i64) -> (touched: usize)
        ensures
            final(self).last_id() == old(self).last_id(),
            final(self)@ == deactivated(old(self)@, id, now),
            touched == (if has_category(old(self)@, id) {
                1usize
            } else {
                0usize
            }),
            !has_category(old(self)@, id) ==> final(self)@ == old(self)@,
    {
        proof {
            use_type_invariant(&*self);
        }
        let ghost before = self@;
        match category_position(&self.rows, id) {
            None => {
                proof {
                    assert(before =~= deactivated(before, id, now));
                }
                0
            },
            Some(i) => {
                let mut row = self.rows[i].snapshot();
                row.is_active = false;
                row.updated_at = now;
                let mut taken = CategoryStore::new();
                std::mem::swap(&mut taken, self);
                let CategoryStore { rows, last_id } = taken;
                let mut rows = rows;
                rows.set(i, row);
                proof {
                    let after = category_models(rows@);
                    assert(before[i as int].id == id);
                    assert forall|k: int| 0 <= k < before.len() && k != i implies (
                    #[trigger] before[k]).id != id by {
                        if k < i {
                            assert(before[k].id < before[i as int].id);
                        } else {
                            assert(before[i as int].id < before[k].id);
                        }
                    }
                    assert(after =~= deactivated(before, id, now));
                }
                *self = CategoryStore { rows, last_id };
                1
            },
        }
    }

    /// The active categories, ordered by name in the order of bytes; those
    /// of one name come in the order of their creation.
    pub fn list_active(&self) -> (r: Vec<BudgetCategory>)
        ensures
            is_active_listing(category_models(r@), self@),
    {
        proof {
            use_type_invariant(self);
        }
        let ghost models = self@;
        let mut listing: Vec<BudgetCategory> = Vec::new();
        let mut k: usize = 0;
        while k < self.rows.len()
            invariant
                k <= self.rows.len(),
                models == category_models(self.rows@),
                category_ids_ascend(models, self.last_id),
                is_active_listing_upto(category_models(listing@), models, k as int),
            decreases self.rows.len() - k,
        {
            let c = &self.rows[k];
            let ghost before = category_models(listing@);
            if c.is_active {
                let pos = category_listing_point(&listing, &c.name);
                listing.insert(pos, c.snapshot());
                proof {
                    assert(category_models(listing@) =~= before.insert(
                        pos as int,
                        models[k as int],
                    ));
                    lemma_active_listing_grows(before, pos as int, models, self.last_id, k as int);
                }
            } else {
                proof {
                    lemma_active_listing_skips(before, models, k as int);
                }
            }
            k = k + 1;
        }
        proof {
            lemma_active_listing_complete(category_models(listing@), models);
        }
        listing
    }

    /// Every category ever created, inactive ones included, in creation
    /// order: identities are positive and strictly increasing.
    pub fn records(&self) -> (r: &Vec<BudgetCategory>)
        ensures
            category_models(r@) == self@,
            category_ids_ascend(self@, self.last_id()),
            self@.len() == 0 ==> self.last_id() == 0,
    {
        proof {
            use_type_invariant(self);
        }
        &self.rows
    }
}

} // verus!
