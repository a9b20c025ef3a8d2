//! Transaction records and the store that keeps them.

use vstd::prelude::*;
use crate::text::{copy_text, text_of};
use crate::date::{Date, Period};
use crate::error::BudgetError;
use vstd::string::StringExecFns;

verus! {

/// What a transaction does to the balance, as its type text tells.
///
/// A transaction carries its type as text. `income` and `expense` are the
/// two known types; a transaction of any other type is kept and listed as
/// it is, and counts towards no total.
#[derive(Clone, Copy, Debug, PartialEq, Eq, Structural)]
pub enum TransactionType {
    Income,
    Expense,
    Unrecognized,
}

impl TransactionType {
    /// The type that a type text stands for: `income`, `expense`, or neither.
    pub open spec fn of_text(text: Seq<char>) -> TransactionType {
        if text == "income"@ {
            TransactionType::Income
        } else if text == "expense"@ {
            TransactionType::Expense
        } else {
            TransactionType::Unrecognized
        }
    }

    /// Reads a type from its text. No text is refused: what is neither
    /// `income` nor `expense` is unrecognized.
    pub fn from_text(text: &str) -> (r: TransactionType)
        ensures
            r == TransactionType::of_text(text@),
    {
        let given = String::from_str(text);
        if given == String::from_str("income") {
            TransactionType::Income
        } else if given == String::from_str("expense") {
            TransactionType::Expense
        } else {
            TransactionType::Unrecognized
        }
    }
}

/// A transaction as the store holds it.
///
/// `amount` is a magnitude in minor currency units; whether it adds to or
/// takes from the balance is told by `transaction_type` alone, which is kept
/// as the text it was given as. Timestamps are milliseconds since the Unix
/// epoch.
#[derive(Clone, Debug, PartialEq, Eq)]
pub struct BudgetTransaction {
    pub id: i64,
    pub category_id: i64,
    pub amount: u64,
    pub transaction_type: String,
    pub description: String,
    pub date: Date,
    pub notes: Option<String>,
    pub created_at: i64,
    pub updated_at: i64,
}

/// The mathematical value of a transaction record.
pub struct TransactionModel {
    pub id: i64,
    pub category_id: i64,
    pub amount: u64,
    pub transaction_type: Seq<char>,
    pub description: Seq<char>,
    pub date: Date,
    pub notes: Option<Seq<char>>,
    pub created_at: i64,
    pub updated_at: i64,
}

impl View for BudgetTransaction {
    type V = TransactionModel;

    open spec fn view(&self) -> TransactionModel {
        TransactionModel {
            id: self.id,
            category_id: self.category_id,
            amount: self.amount,
            transaction_type: self.transaction_type@,
            description: self.description@,
            date: self.date,
            notes: text_of(self.notes),
            created_at: self.created_at,
            updated_at: self.updated_at,
        }
    }
}

impl TransactionModel {
    /// What the transaction does to the balance.
    pub open spec fn kind(self) -> TransactionType {
        TransactionType::of_text(self.transaction_type)
    }
}

impl BudgetTransaction {
    /// What the transaction does to the balance.
    pub fn kind(&self) -> (r: TransactionType)
        ensures
            r == self@.kind(),
    {
        TransactionType::from_text(self.transaction_type.as_str())
    }

    /// A snapshot of the record, equal to it field by field.
    pub fn snapshot(&self) -> (r: BudgetTransaction)
        ensures
            r@ == self@,
    {
        BudgetTransaction {
            id: self.id,
            category_id: self.category_id,
            amount: self.amount,
            transaction_type: self.transaction_type.clone(),
            description: self.description.clone(),
            date: self.date,
            notes: copy_text(&self.notes),
            created_at: self.created_at,
            updated_at: self.updated_at,
        }
    }
}

/// The fields of a transaction that a partial update may set. A field that
/// is `None` keeps the value it has in the store.
#[derive(Clone, Debug, PartialEq, Eq)]
pub struct TransactionUpdate {
    pub category_id: Option<i64>,
    pub amount: Option<u64>,
    pub transaction_type: Option<String>,
    pub description: Option<String>,
    pub date: Option<Date>,
    pub notes: Option<String>,
}

/// The mathematical value of a partial update.
pub struct UpdateModel {
    pub category_id: Option<i64>,
    pub amount: Option<u64>,
    pub transaction_type: Option<Seq<char>>,
    pub description: Option<Seq<char>>,
    pub date: Option<Date>,
    pub notes: Option<Seq<char>>,
}

impl View for TransactionUpdate {
    type V = UpdateModel;

    open spec fn view(&self) -> UpdateModel {
        UpdateModel {
            category_id: self.category_id,
            amount: self.amount,
            transaction_type: text_of(self.transaction_type),
            description: text_of(self.description),
            date: self.date,
            notes: text_of(self.notes),
        }
    }
}

/// A field of a transaction that a partial update may set.
#[derive(Clone, Copy, Debug, PartialEq, Eq, Structural)]
pub enum TransactionField {
    CategoryId,
    Amount,
    TransactionType,
    Description,
    Date,
    Notes,
}

/// Field `f` if `supplied`, else nothing.
#[verifier::opaque]
pub open spec fn field_if(supplied: bool, f: TransactionField) -> Seq<TransactionField> {
    if supplied {
        seq![f]
    } else {
        Seq::empty()
    }
}

impl UpdateModel {
    /// The fields that the update supplies, in the order of the record.
    /// These, and `updated_at`, are what a store has to write.
    pub open spec fn supplied_fields(self) -> Seq<TransactionField> {
        field_if(self.supplies(TransactionField::CategoryId), TransactionField::CategoryId)
            + field_if(self.supplies(TransactionField::Amount), TransactionField::Amount)
            + field_if(
            self.supplies(TransactionField::TransactionType),
            TransactionField::TransactionType,
        ) + field_if(self.supplies(TransactionField::Description), TransactionField::Description)
            + field_if(self.supplies(TransactionField::Date), TransactionField::Date) + field_if(
            self.supplies(TransactionField::Notes),
            TransactionField::Notes,
        )
    }

    /// Whether the update supplies field `f`.
    pub open spec fn supplies(self, f: TransactionField) -> bool {
        match f {
            TransactionField::CategoryId => self.category_id is Some,
            TransactionField::Amount => self.amount is Some,
            TransactionField::TransactionType => self.transaction_type is Some,
            TransactionField::Description => self.description is Some,
            TransactionField::Date => self.date is Some,
            TransactionField::Notes => self.notes is Some,
        }
    }

    /// The update that supplies `amount` and nothing else.
    pub open spec fn amount_only(amount: u64) -> UpdateModel {
        UpdateModel {
            category_id: None,
            amount: Some(amount),
            transaction_type: None,
            description: None,
            date: None,
            notes: None,
        }
    }

    /// No field is supplied.
    pub open spec fn is_empty(self) -> bool {
        &&& self.category_id is None
        &&& self.amount is None
        &&& self.transaction_type is None
        &&& self.description is None
        &&& self.date is None
        &&& self.notes is None
    }
}

/// The value that a field takes: the supplied one, else the stored one.
pub open spec fn supplied_or<T>(supplied: Option<T>, stored: T) -> T {
    match supplied {
        Some(v) => v,
        None => stored,
    }
}

/// Transaction `t` after update `c` at instant `now`: the supplied fields
/// take their new values, the others stay, and `updated_at` becomes `now`.
/// Identity and `created_at` never change. Supplied notes replace the stored
/// ones; absent notes leave them as they are.
pub open spec fn revised(t: TransactionModel, c: UpdateModel, now: i64) -> TransactionModel {
    TransactionModel {
        id: t.id,
        category_id: supplied_or(c.category_id, t.category_id),
        amount: supplied_or(c.amount, t.amount),
        transaction_type: supplied_or(c.transaction_type, t.transaction_type),
        description: supplied_or(c.description, t.description),
        date: supplied_or(c.date, t.date),
        notes: match c.notes {
            Some(n) => Some(n),
            None => t.notes,
        },
        created_at: t.created_at,
        updated_at: now,
    }
}

impl TransactionUpdate {
    /// An update that supplies no field.
    pub fn none() -> (r: TransactionUpdate)
        ensures
            r@.is_empty(),
    {
        TransactionUpdate {
            category_id: None,
            amount: None,
            transaction_type: None,
            description: None,
            date: None,
            notes: None,
        }
    }

    /// An update that supplies the amount and nothing else.
    pub fn amount_only(amount: u64) -> (r: TransactionUpdate)
        ensures
            r@ == UpdateModel::amount_only(amount),
    {
        let mut r = TransactionUpdate::none();
        r.amount = Some(amount);
        r
    }

    /// The fields that the update supplies, in the order of the record.
    pub fn supplied_fields(&self) -> (r: Vec<TransactionField>)
        ensures
            r@ == self@.supplied_fields(),
    {
        let mut fields: Vec<TransactionField> = Vec::new();
        if self.category_id.is_some() {
            fields.push(TransactionField::CategoryId);
        }
        if self.amount.is_some() {
            fields.push(TransactionField::Amount);
        }
        if self.transaction_type.is_some() {
            fields.push(TransactionField::TransactionType);
        }
        if self.description.is_some() {
            fields.push(TransactionField::Description);
        }
        if self.date.is_some() {
            fields.push(TransactionField::Date);
        }
        if self.notes.is_some() {
            fields.push(TransactionField::Notes);
        }
        proof {
            reveal(field_if);
            assert(fields@ =~= self@.supplied_fields());
        }
        fields
    }

    /// Whether no field is supplied.
    pub fn is_empty(&self) -> (r: bool)
        ensures
            r == self@.is_empty(),
    {
        self.category_id.is_none() && self.amount.is_none() && self.transaction_type.is_none()
            && self.description.is_none() && self.date.is_none() && self.notes.is_none()
    }
}

impl BudgetTransaction {
    /// The record after update `changes` at instant `now`.
    pub fn revise(&self, changes: &TransactionUpdate, now: i64) -> (r: BudgetTransaction)
        ensures
            r@ == revised(self@, changes@, now),
    {
        BudgetTransaction {
            id: self.id,
            category_id: match changes.category_id {
                Some(v) => v,
                None => self.category_id,
            },
            amount: match changes.amount {
                Some(v) => v,
                None => self.amount,
            },
            transaction_type: match &changes.transaction_type {
                Some(v) => v.clone(),
                None => self.transaction_type.clone(),
            },
            description: match &changes.description {
                Some(v) => v.clone(),
                None => self.description.clone(),
            },
            date: match changes.date {
                Some(v) => v,
                None => self.date,
            },
            notes: match &changes.notes {
                Some(v) => Some(v.clone()),
                None => copy_text(&self.notes),
            },
            created_at: self.created_at,
            updated_at: now,
        }
    }
}

/// The models of a run of transaction records, in the same order.
pub open spec fn transaction_models(rows: Seq<BudgetTransaction>) -> Seq<TransactionModel> {
    rows.map_values(|t: BudgetTransaction| t@)
}

/// Identities are positive and strictly increasing along the rows, and none
/// exceeds `last_id`.
pub open spec fn transaction_ids_ascend(rows: Seq<TransactionModel>, last_id: i64) -> bool {
    &&& 0 <= last_id
    &&& forall|i: int| 0 <= i < rows.len() ==> 1 <= #[trigger] rows[i].id <= last_id
    &&& forall|i: int, j: int| 0 <= i < j < rows.len() ==> rows[i].id < rows[j].id
}

/// With ascending positive identities, the row at position `i` has an
/// identity of at least `i + 1`.
proof fn lemma_transaction_id_floor(rows: Seq<TransactionModel>, last_id: i64, i: int)
    requires
        transaction_ids_ascend(rows, last_id),
        0 <= i < rows.len(),
    ensures
        rows[i].id >= i + 1,
    decreases i,
{
    if i > 0 {
        lemma_transaction_id_floor(rows, last_id, i - 1);
    }
}

/// With ascending positive identities there are at most `last_id` rows.
pub proof fn lemma_transaction_count_bounded(rows: Seq<TransactionModel>, last_id: i64)
    requires
        transaction_ids_ascend(rows, last_id),
    ensures
        rows.len() <= last_id,
{
    if rows.len() > 0 {
        lemma_transaction_id_floor(rows, last_id, rows.len() - 1);
    }
}

/// Some row has identity `id`.
pub open spec fn has_transaction(rows: Seq<TransactionModel>, id: i64) -> bool {
    exists|i: int| 0 <= i < rows.len() && (#[trigger] rows[i]).id == id
}

/// The rows after update `c` of transaction `id` at instant `now`: that
/// transaction is revised, every other row is as it was.
pub open spec fn revise_rows(
    rows: Seq<TransactionModel>,
    id: i64,
    c: UpdateModel,
    now: i64,
) -> Seq<TransactionModel> {
    rows.map_values(
        |t: TransactionModel|
            if t.id == id {
                revised(t, c, now)
            } else {
                t
            },
    )
}

/// An update of the amount alone leaves description, date, notes, category
/// and type of the transaction as they were, sets the amount, and stamps the
/// transaction with the instant of the update; where that instant is later
/// than the previous stamp, `updated_at` advances. Every other transaction
/// stays as it was.
pub proof fn lemma_amount_only_update(
    rows: Seq<TransactionModel>,
    i: int,
    amount: u64,
    now: i64,
)
    requires
        0 <= i < rows.len(),
    ensures
        ({
            let before = rows[i];
            let after = revise_rows(rows, before.id, UpdateModel::amount_only(amount), now)[i];
            &&& after.id == before.id
            &&& after.description == before.description
            &&& after.date == before.date
            &&& after.notes == before.notes
            &&& after.category_id == before.category_id
            &&& after.transaction_type == before.transaction_type
            &&& after.created_at == before.created_at
            &&& after.amount == amount
            &&& after.updated_at == now
            &&& now > before.updated_at ==> after.updated_at > before.updated_at
        }),
        forall|k: int|
            0 <= k < rows.len() && (#[trigger] rows[k]).id != rows[i].id ==> revise_rows(
                rows,
                rows[i].id,
                UpdateModel::amount_only(amount),
                now,
            )[k] == rows[k],
{
}

impl TransactionField {
    /// The place of the field in the record.
    pub open spec fn rank(self) -> int {
        match self {
            TransactionField::CategoryId => 0,
            TransactionField::Amount => 1,
            TransactionField::TransactionType => 2,
            TransactionField::Description => 3,
            TransactionField::Date => 4,
            TransactionField::Notes => 5,
        }
    }
}

/// `fields` holds, in the order of the record and each once, the fields
/// before place `k` that update `c` supplies.
pub open spec fn lists_supplied_upto(
    fields: Seq<TransactionField>,
    c: UpdateModel,
    k: int,
) -> bool {
    &&& forall|i: int|
        0 <= i < fields.len() ==> c.supplies(#[trigger] fields[i]) && fields[i].rank() < k
    &&& forall|i: int, j: int|
        0 <= i < j < fields.len() ==> (#[trigger] fields[i]).rank() < (#[trigger] fields[j]).rank()
    &&& forall|f: TransactionField|
        c.supplies(f) && #[trigger] f.rank() < k ==> fields.contains(f)
}

/// The list of the supplied fields before place `k`, with the field at place
/// `k` added where it is supplied, is the list before place `k + 1`.
proof fn lemma_lists_supplied_step(
    fields: Seq<TransactionField>,
    c: UpdateModel,
    g: TransactionField,
)
    requires
        lists_supplied_upto(fields, c, g.rank()),
    ensures
        lists_supplied_upto(fields + field_if(c.supplies(g), g), c, g.rank() + 1),
{
    reveal(field_if);
    let next = fields + field_if(c.supplies(g), g);
    assert forall|f: TransactionField| c.supplies(f) && #[trigger] f.rank() < g.rank()
        + 1 implies next.contains(f) by {
        if f.rank() < g.rank() {
            let i = choose|i: int| 0 <= i < fields.len() && fields[i] == f;
            assert(next[i] == f);
        } else {
            assert(f == g);
            assert(next[fields.len() as int] == f);
        }
    }
}

/// The supplied fields of an update are the fields that it supplies, each
/// once; an update is empty where there is none.
pub proof fn lemma_supplied_fields(c: UpdateModel, f: TransactionField)
    ensures
        c.supplied_fields().contains(f) == c.supplies(f),
        c.supplied_fields().no_duplicates(),
        c.is_empty() == (c.supplied_fields().len() == 0),
{
    let s0 = Seq::<TransactionField>::empty();
    let s1 = s0 + field_if(c.supplies(TransactionField::CategoryId), TransactionField::CategoryId);
    let s2 = s1 + field_if(c.supplies(TransactionField::Amount), TransactionField::Amount);
    let s3 = s2 + field_if(
        c.supplies(TransactionField::TransactionType),
        TransactionField::TransactionType,
    );
    let s4 = s3 + field_if(
        c.supplies(TransactionField::Description),
        TransactionField::Description,
    );
    let s5 = s4 + field_if(c.supplies(TransactionField::Date), TransactionField::Date);
    let s6 = s5 + field_if(c.supplies(TransactionField::Notes), TransactionField::Notes);
    assert(lists_supplied_upto(s0, c, 0));
    lemma_lists_supplied_step(s0, c, TransactionField::CategoryId);
    lemma_lists_supplied_step(s1, c, TransactionField::Amount);
    lemma_lists_supplied_step(s2, c, TransactionField::TransactionType);
    lemma_lists_supplied_step(s3, c, TransactionField::Description);
    lemma_lists_supplied_step(s4, c, TransactionField::Date);
    lemma_lists_supplied_step(s5, c, TransactionField::Notes);
    assert(s1 =~= field_if(c.supplies(TransactionField::CategoryId), TransactionField::CategoryId));
    let fields = c.supplied_fields();
    assert(s6 == fields);
    assert(lists_supplied_upto(fields, c, 6));
    assert(f.rank() < 6);
    if fields.contains(f) {
        let i = choose|i: int| 0 <= i < fields.len() && fields[i] == f;
        assert(c.supplies(fields[i]));
    }
    if fields.len() > 0 {
        assert(c.supplies(fields[0]));
    }
    if !c.is_empty() {
        let some = if c.category_id is Some {
            TransactionField::CategoryId
        } else if c.amount is Some {
            TransactionField::Amount
        } else if c.transaction_type is Some {
            TransactionField::TransactionType
        } else if c.description is Some {
            TransactionField::Description
        } else if c.date is Some {
            TransactionField::Date
        } else {
            TransactionField::Notes
        };
        assert(c.supplies(some) && some.rank() < 6);
        assert(fields.contains(some));
    }
}

/// An update changes exactly the supplied fields: each field is the supplied
/// value where one is supplied and the stored one where none is.
pub proof fn lemma_update_changes_supplied_only(t: TransactionModel, c: UpdateModel, now: i64)
    ensures
        c.category_id is None ==> revised(t, c, now).category_id == t.category_id,
        c.amount is None ==> revised(t, c, now).amount == t.amount,
        c.transaction_type is None ==> revised(t, c, now).transaction_type == t.transaction_type,
        c.description is None ==> revised(t, c, now).description == t.description,
        c.date is None ==> revised(t, c, now).date == t.date,
        c.notes is None ==> revised(t, c, now).notes == t.notes,
        c.category_id is Some ==> revised(t, c, now).category_id == c.category_id->0,
        c.amount is Some ==> revised(t, c, now).amount == c.amount->0,
        c.transaction_type is Some ==> revised(t, c, now).transaction_type
            == c.transaction_type->0,
        c.description is Some ==> revised(t, c, now).description == c.description->0,
        c.date is Some ==> revised(t, c, now).date == c.date->0,
        c.notes is Some ==> revised(t, c, now).notes == c.notes,
        revised(t, c, now).id == t.id,
        revised(t, c, now).created_at == t.created_at,
        revised(t, c, now).updated_at == now,
{
}

/// The assignment that writes field `f`: the name of its column and a
/// placeholder for its value.
pub open spec fn assignment_text(f: TransactionField) -> Seq<char> {
    match f {
        TransactionField::CategoryId => "category_id = ?"@,
        TransactionField::Amount => "amount = ?"@,
        TransactionField::TransactionType => "type = ?"@,
        TransactionField::Description => "description = ?"@,
        TransactionField::Date => "date = ?"@,
        TransactionField::Notes => "notes = ?"@,
    }
}

/// The assignments of `fields` in their order, each followed by a comma.
pub open spec fn assignments_text(fields: Seq<TransactionField>) -> Seq<char>
    decreases fields.len(),
{
    if fields.len() == 0 {
        Seq::empty()
    } else {
        assignments_text(fields.drop_last()) + assignment_text(fields.last()) + ", "@
    }
}

/// The statement that writes the given fields of one transaction and its
/// `updated_at`: a fixed head, one assignment for each field, and a fixed
/// tail that stamps the row and picks it by identity. It is made of column
/// names and placeholders alone. The values are bound to the placeholders in
/// the order of `fields`, then the stamp, then the identity.
pub open spec fn statement_text(fields: Seq<TransactionField>) -> Seq<char> {
    "UPDATE budget_transactions SET "@ + assignments_text(fields)
        + "updated_at = ? WHERE id = ?"@
}

/// The assignment that writes field `f`, with a placeholder for its value.
pub fn assignment(f: TransactionField) -> (r: &'static str)
    ensures
        r@ == assignment_text(f),
{
    match f {
        TransactionField::CategoryId => "category_id = ?",
        TransactionField::Amount => "amount = ?",
        TransactionField::TransactionType => "type = ?",
        TransactionField::Description => "description = ?",
        TransactionField::Date => "date = ?",
        TransactionField::Notes => "notes = ?",
    }
}

/// The statement that writes the given fields of one transaction. No value
/// is among its arguments, so none can become part of its text.
pub fn update_statement(fields: &Vec<TransactionField>) -> (r: String)
    ensures
        r@ == statement_text(fields@),
{
    let mut out = String::from_str("UPDATE budget_transactions SET ");
    let ghost head = out@;
    let mut k: usize = 0;
    proof {
        assert(head + assignments_text(fields@.take(0)) =~= head);
    }
    while k < fields.len()
        invariant
            k <= fields.len(),
            head == "UPDATE budget_transactions SET "@,
            out@ == head + assignments_text(fields@.take(k as int)),
        decreases fields.len() - k,
    {
        out.append(assignment(fields[k]));
        out.append(", ");
        proof {
            assert(fields@.take(k + 1).drop_last() =~= fields@.take(k as int));
            assert(out@ =~= head + assignments_text(fields@.take(k + 1)));
        }
        k = k + 1;
    }
    proof {
        assert(fields@.take(fields.len() as int) =~= fields@);
    }
    out.append("updated_at = ? WHERE id = ?");
    out
}

/// The rows after the notes of transaction `id` were removed at instant
/// `now`: that transaction is without notes and stamped with `now`, nothing
/// else about it changes, and every other row is as it was.
pub open spec fn clear_notes_rows(
    rows: Seq<TransactionModel>,
    id: i64,
    now: i64,
) -> Seq<TransactionModel> {
    rows.map_values(
        |t: TransactionModel|
            if t.id == id {
                TransactionModel { notes: None, updated_at: now, ..t }
            } else {
                t
            },
    )
}

/// The test that keeps every transaction but `id`.
pub open spec fn other_than(id: i64) -> spec_fn(TransactionModel) -> bool {
    |t: TransactionModel| t.id != id
}

/// The rows without transaction `id`, the others in their order.
pub open spec fn without_transaction(rows: Seq<TransactionModel>, id: i64) -> Seq<
    TransactionModel,
> {
    rows.filter(other_than(id))
}

/// Filtering out an identity that no row has changes nothing.
pub proof fn lemma_without_absent(rows: Seq<TransactionModel>, id: i64)
    requires
        !has_transaction(rows, id),
    ensures
        without_transaction(rows, id) == rows,
    decreases rows.len(),
{
    reveal(Seq::filter);
    if rows.len() > 0 {
        let front = rows.drop_last();
        assert forall|i: int| 0 <= i < front.len() implies (#[trigger] front[i]).id != id by {
            assert(rows[i].id != id);
        }
        lemma_without_absent(front, id);
        assert(rows.last().id != id);
        assert(front.push(rows.last()) =~= rows);
    }
}

/// Where identities ascend, filtering out the identity of the row at
/// position `i` removes exactly that row.
pub proof fn lemma_without_present(rows: Seq<TransactionModel>, last_id: i64, i: int)
    requires
        transaction_ids_ascend(rows, last_id),
        0 <= i < rows.len(),
    ensures
        without_transaction(rows, rows[i].id) == rows.remove(i),
    decreases rows.len(),
{
    reveal(Seq::filter);
    let id = rows[i].id;
    let front = rows.drop_last();
    if i == rows.len() - 1 {
        assert forall|k: int| 0 <= k < front.len() implies (#[trigger] front[k]).id != id by {
            assert(rows[k].id < rows[i].id);
        }
        lemma_without_absent(front, id);
        assert(rows.remove(i) =~= front);
    } else {
        lemma_without_present(front, last_id, i);
        assert(rows[i].id < rows.last().id);
        assert(front.remove(i).push(rows.last()) =~= rows.remove(i));
    }
}

/// The order of a listing: later dates first, and among transactions of one
/// day the one created first.
pub open spec fn listed_before(a: TransactionModel, b: TransactionModel) -> bool {
    b.date.earlier_than(a.date) || (a.date == b.date && a.id < b.id)
}

/// `listing` holds exactly the rows dated inside `period`, in listing order.
pub open spec fn is_period_listing(
    listing: Seq<TransactionModel>,
    rows: Seq<TransactionModel>,
    period: Period,
) -> bool {
    &&& forall|i: int|
        0 <= i < listing.len() ==> rows.contains(#[trigger] listing[i]) && period.covers(
            listing[i].date,
        )
    &&& forall|m: int|
        0 <= m < rows.len() && period.covers((#[trigger] rows[m]).date) ==> listing.contains(
            rows[m],
        )
    &&& forall|i: int, k: int|
        0 <= i < k < listing.len() ==> listed_before(#[trigger] listing[i], #[trigger] listing[k])
}

/// Row `t` is one of the first `k` rows.
pub open spec fn taken_from(t: TransactionModel, rows: Seq<TransactionModel>, k: int) -> bool {
    exists|m: int| 0 <= m < k && #[trigger] rows[m] == t
}

/// `listing` is the listing as far as the first `k` rows go.
pub open spec fn is_period_listing_upto(
    listing: Seq<TransactionModel>,
    rows: Seq<TransactionModel>,
    period: Period,
    k: int,
) -> bool {
    &&& forall|i: int|
        0 <= i < listing.len() ==> taken_from(#[trigger] listing[i], rows, k) && period.covers(
            listing[i].date,
        )
    &&& forall|m: int|
        0 <= m < k && period.covers((#[trigger] rows[m]).date) ==> listing.contains(rows[m])
    &&& forall|i: int, j: int|
        0 <= i < j < listing.len() ==> listed_before(#[trigger] listing[i], #[trigger] listing[j])
}

/// A row dated outside the period leaves the listing as it is.
proof fn lemma_listing_skips(
    listing: Seq<TransactionModel>,
    rows: Seq<TransactionModel>,
    period: Period,
    k: int,
)
    requires
        0 <= k < rows.len(),
        is_period_listing_upto(listing, rows, period, k),
        !period.covers(rows[k].date),
    ensures
        is_period_listing_upto(listing, rows, period, k + 1),
{
    assert forall|i: int| 0 <= i < listing.len() implies taken_from(
        #[trigger] listing[i],
        rows,
        k + 1,
    ) by {
        let m = choose|m: int| 0 <= m < k && #[trigger] rows[m] == listing[i];
        assert(rows[m] == listing[i]);
    }
}

/// The next row, put behind the listed rows that are not dated earlier,
/// extends the listing by that row.
proof fn lemma_listing_grows(
    listing: Seq<TransactionModel>,
    pos: int,
    rows: Seq<TransactionModel>,
    last_id: i64,
    period: Period,
    k: int,
)
    requires
        0 <= k < rows.len(),
        transaction_ids_ascend(rows, last_id),
        is_period_listing_upto(listing, rows, period, k),
        period.covers(rows[k].date),
        0 <= pos <= listing.len(),
        forall|i: int| 0 <= i < pos ==> !(#[trigger] listing[i]).date.earlier_than(rows[k].date),
        pos < listing.len() ==> listing[pos].date.earlier_than(rows[k].date),
    ensures
        is_period_listing_upto(listing.insert(pos, rows[k]), rows, period, k + 1),
{
    let t = rows[k];
    let after = listing.insert(pos, t);
    assert(after.len() == listing.len() + 1);
    assert(after[pos] == t);
    assert forall|i: int| 0 <= i < after.len() && i != pos implies #[trigger] after[i]
        == listing[if i < pos { i } else { i - 1 }] by {}
    assert(taken_from(t, rows, k + 1));
    assert forall|i: int| 0 <= i < after.len() implies taken_from(#[trigger] after[i], rows, k + 1)
        && period.covers(after[i].date) by {
        if i != pos {
            let old_i = if i < pos { i } else { i - 1 };
            let m = choose|m: int| 0 <= m < k && #[trigger] rows[m] == listing[old_i];
            assert(rows[m] == after[i]);
        }
    }
    assert forall|m: int|
        0 <= m < k + 1 && period.covers((#[trigger] rows[m]).date) implies after.contains(
        rows[m],
    ) by {
        if m == k {
            assert(after[pos] == rows[m]);
        } else {
            let i = choose|i: int| 0 <= i < listing.len() && listing[i] == rows[m];
            let new_i = if i < pos { i } else { i + 1 };
            assert(after[new_i] == rows[m]);
        }
    }
    assert forall|i: int, j: int| 0 <= i < j < after.len() implies listed_before(
        #[trigger] after[i],
        #[trigger] after[j],
    ) by {
        if j == pos {
            let m = choose|m: int| 0 <= m < k && #[trigger] rows[m] == listing[i];
            assert(rows[m].id < rows[k].id);
        } else if i == pos {
            if pos < j - 1 {
                assert(listed_before(listing[pos], listing[j - 1]));
            }
        } else {
            let old_i = if i < pos { i } else { i - 1 };
            let old_j = if j < pos { j } else { j - 1 };
            assert(listed_before(listing[old_i], listing[old_j]));
        }
    }
}

/// A listing that went through all rows is the listing.
proof fn lemma_listing_complete(
    listing: Seq<TransactionModel>,
    rows: Seq<TransactionModel>,
    period: Period,
)
    requires
        is_period_listing_upto(listing, rows, period, rows.len() as int),
    ensures
        is_period_listing(listing, rows, period),
{
    assert forall|i: int| 0 <= i < listing.len() implies rows.contains(#[trigger] listing[i]) by {
        let m = choose|m: int| 0 <= m < rows.len() && #[trigger] rows[m] == listing[i];
        assert(rows[m] == listing[i]);
    }
}

/// Where a row dated `date` goes in a listing: behind every row that is not
/// dated earlier.
fn listing_point(listing: &Vec<BudgetTransaction>, date: &Date) -> (pos: usize)
    ensures
        pos <= listing.len(),
        forall|i: int| 0 <= i < pos ==> !(#[trigger] listing[i]).date.earlier_than(*date),
        pos < listing.len() ==> listing[pos as int].date.earlier_than(*date),
{
    let mut pos: usize = 0;
    while pos < listing.len() && !listing[pos].date.is_before(date)
        invariant
            pos <= listing.len(),
            forall|i: int| 0 <= i < pos ==> !(#[trigger] listing[i]).date.earlier_than(*date),
        decreases listing.len() - pos,
    {
        pos = pos + 1;
    }
    pos
}

/// The position of the row with identity `id`.
fn position_of(rows: &Vec<BudgetTransaction>, id: i64) -> (r: Option<usize>)
    ensures
        r is Some <==> has_transaction(transaction_models(rows@), id),
        r is Some ==> r->Some_0 < rows.len() && rows[r->Some_0 as int].id == id,
{
    let ghost models = transaction_models(rows@);
    let mut k: usize = 0;
    while k < rows.len()
        invariant
            k <= rows.len(),
            models == transaction_models(rows@),
            forall|i: int| 0 <= i < k ==> (#[trigger] models[i]).id != id,
        decreases rows.len() - k,
    {
        if rows[k].id == id {
            proof {
                assert(models[k as int].id == id);
            }
            return Some(k);
        }
        k = k + 1;
    }
    None
}

/// The transactions of a ledger, in the order in which they were created.
pub struct TransactionStore {
    pub(crate) rows: Vec<BudgetTransaction>,
    pub(crate) last_id: i64,
}

impl View for TransactionStore {
    type V = Seq<TransactionModel>;

    closed spec fn view(&self) -> Seq<TransactionModel> {
        transaction_models(self.rows@)
    }
}

impl TransactionStore {
    #[verifier::type_invariant]
    pub(crate) closed spec fn inv(self) -> bool {
        transaction_ids_ascend(self@, self.last_id)
    }

    /// The greatest identity handed out so far, 0 before the first.
    pub closed spec fn last_id(self) -> i64 {
        self.last_id
    }

    /// A store without transactions.
    pub fn new() -> (r: TransactionStore)
        ensures
            r@ == Seq::<TransactionModel>::empty(),
            r.last_id() == 0,
    {
        TransactionStore { rows: Vec::new(), last_id: 0 }
    }

    /// Takes over rows read from elsewhere. They must come in the order of
    /// their identities, which must be positive and distinct; otherwise
    /// `InvalidArgument` is returned. The greatest identity becomes the
    /// last one handed out.
    pub fn from_rows(rows: Vec<BudgetTransaction>) -> (r: Result<TransactionStore, BudgetError>)
        ensures
            r is Ok <==> exists|last: i64| transaction_ids_ascend(transaction_models(rows@), last),
            r is Err ==> r->Err_0 == BudgetError::InvalidArgument,
            r is Ok ==> {
                &&& r->Ok_0@ == transaction_models(rows@)
                &&& r->Ok_0.last_id() == (if rows.len() == 0 {
                    0
                } else {
                    rows@.last().id
                })
            },
    {
        let ghost models = transaction_models(rows@);
        let mut last: i64 = 0;
        let mut k: usize = 0;
        while k < rows.len()
            invariant
                k <= rows.len(),
                models == transaction_models(rows@),
                transaction_ids_ascend(models.take(k as int), last),
                last == (if k == 0 {
                    0
                } else {
                    rows@[k - 1].id
                }),
            decreases rows.len() - k,
        {
            if rows[k].id <= last {
                proof {
                    assert forall|any: i64| !transaction_ids_ascend(models, any) by {
                        if transaction_ids_ascend(models, any) {
                            if k > 0 {
                                assert(models[k - 1].id < models[k as int].id);
                            } else {
                                assert(1 <= models[0].id);
                            }
                        }
                    }
                }
                return Err(BudgetError::InvalidArgument);
            }
            last = rows[k].id;
            k = k + 1;
        }
        proof {
            assert(models.take(rows.len() as int) =~= models);
        }
        Ok(TransactionStore { rows, last_id: last })
    }

    /// Adds a transaction created at instant `now` and returns its identity,
    /// the successor of the last one handed out. The category is not looked
    /// up: any `category_id` is accepted. Once the identities are used up,
    /// `StorageError` is returned and the store stays as it is.
    pub fn create_at(
        &mut self,
        category_id: i64,
        amount: u64,
        transaction_type: String,
        description: String,
        date: Date,
        notes: Option<String>,
        now: i64,
    ) -> (r: Result<i64, BudgetError>)
        ensures
            r is Ok <==> old(self).last_id() < i64::MAX,
            r is Err ==> r->Err_0 == BudgetError::StorageError && final(self)@ == old(self)@
                && final(self).last_id() == old(self).last_id(),
            r is Ok ==> {
                &&& r->Ok_0 == old(self).last_id() + 1
                &&& final(self).last_id() == r->Ok_0
                &&& final(self)@ == old(self)@.push(
                    TransactionModel {
                        id: r->Ok_0,
                        category_id,
                        amount,
                        transaction_type: transaction_type@,
                        description: description@,
                        date,
                        notes: text_of(notes),
                        created_at: now,
                        updated_at: now,
                    },
                )
            },
    {
        proof {
            use_type_invariant(&*self);
        }
        if self.last_id == i64::MAX {
            return Err(BudgetError::StorageError);
        }
        let id = self.last_id + 1;
        let row = BudgetTransaction {
            id,
            category_id,
            amount,
            transaction_type,
            description,
            date,
            notes,
            created_at: now,
            updated_at: now,
        };
        let ghost before = self@;
        let mut rows = Vec::new();
        std::mem::swap(&mut rows, &mut self.rows);
        rows.push(row);
        proof {
            assert(transaction_models(rows@) =~= before.push(row@));
        }
        self.last_id = id;
        self.rows = rows;
        Ok(id)
    }

    /// The transaction with identity `id`, if the store holds it.
    pub fn get(&self, id: i64) -> (r: Option<BudgetTransaction>)
        ensures
            r is Some <==> has_transaction(self@, id),
            r is Some ==> self@.contains(r->Some_0@) && r->Some_0.id == id,
    {
        match position_of(&self.rows, id) {
            Some(i) => {
                proof {
                    assert(self@[i as int] == self.rows@[i as int]@);
                }
                Some(self.rows[i].snapshot())
            },
            None => None,
        }
    }

    /// Applies partial update `changes` to transaction `id` at instant `now`.
    ///
    /// An update that supplies no field is refused with `NoOpUpdate`, whether
    /// or not the transaction exists; an unknown `id` is refused with
    /// `NotFound`. In both cases nothing is written. Otherwise exactly the
    /// supplied fields change and `updated_at` becomes `now`.
    pub fn update_at(&mut self, id: i64, changes: &TransactionUpdate, now: i64) -> (r: Result<
        (),
        BudgetError,
    >)
        ensures
            final(self).last_id() == old(self).last_id(),
            changes@.is_empty() ==> r == Err::<(), BudgetError>(BudgetError::NoOpUpdate),
            !changes@.is_empty() && !has_transaction(old(self)@, id) ==> r == Err::<
                (),
                BudgetError,
            >(BudgetError::NotFound),
            !changes@.is_empty() && has_transaction(old(self)@, id) ==> r is Ok,
            r is Err ==> final(self)@ == old(self)@,
            r is Ok ==> final(self)@ == revise_rows(old(self)@, id, changes@, now),
    {
        proof {
            use_type_invariant(&*self);
        }
        if changes.is_empty() {
            return Err(BudgetError::NoOpUpdate);
        }
        let ghost before = self@;
        match position_of(&self.rows, id) {
            None => Err(BudgetError::NotFound),
            Some(i) => {
                let row = self.rows[i].revise(changes, now);
                let mut rows = Vec::new();
                std::mem::swap(&mut rows, &mut self.rows);
                rows.set(i, row);
                proof {
                    let after = transaction_models(rows@);
                    assert(before[i as int].id == id);
                    assert forall|k: int| 0 <= k < before.len() && k != i implies (
                    #[trigger] before[k]).id != id by {
                        if k < i {
                            assert(before[k].id < before[i as int].id);
                        } else {
                            assert(before[i as int].id < before[k].id);
                        }
                    }
                    assert(after =~= revise_rows(before, id, changes@, now));
                }
                self.rows = rows;
                Ok(())
            },
        }
    }

    /// Removes the notes of transaction `id` at instant `now`, which a
    /// partial update cannot do: there, absent notes leave the stored ones.
    /// An unknown `id` is refused with `NotFound` and nothing is written.
    /// A transaction that has no notes is stamped all the same.
    pub fn clear_notes_at(&mut self, id: i64, now: i64) -> (r: Result<(), BudgetError>)
        ensures
            final(self).last_id() == old(self).last_id(),
            r is Ok <==> has_transaction(old(self)@, id),
            r is Err ==> r->Err_0 == BudgetError::NotFound && final(self)@ == old(self)@,
            r is Ok ==> final(self)@ == clear_notes_rows(old(self)@, id, now),
    {
        proof {
            use_type_invariant(&*self);
        }
        let ghost before = self@;
        match position_of(&self.rows, id) {
            None => Err(BudgetError::NotFound),
            Some(i) => {
                let mut row = self.rows[i].snapshot();
                row.notes = None;
                row.updated_at = now;
                let mut rows = Vec::new();
                std::mem::swap(&mut rows, &mut self.rows);
                rows.set(i, row);
                proof {
                    let after = transaction_models(rows@);
                    assert(before[i as int].id == id);
                    assert forall|k: int| 0 <= k < before.len() && k != i implies (
                    #[trigger] before[k]).id != id by {
                        if k < i {
                            assert(before[k].id < before[i as int].id);
                        } else {
                            assert(before[i as int].id < before[k].id);
                        }
                    }
                    assert(after =~= clear_notes_rows(before, id, now));
                }
                self.rows = rows;
                Ok(())
            },
        }
    }

    /// Removes transaction `id` for good and returns the number of rows
    /// removed: 1, or 0 where the store holds no such transaction, which is
    /// no error. Identities are not handed out again.
    pub fn delete(&mut self, id: i64) -> (removed: usize)
        ensures
            final(self).last_id() == old(self).last_id(),
            final(self)@ == without_transaction(old(self)@, id),
            removed == (if has_transaction(old(self)@, id) {
                1usize
            } else {
                0usize
            }),
            removed == old(self)@.len() - final(self)@.len(),
            !has_transaction(old(self)@, id) ==> final(self)@ == old(self)@,
            !has_transaction(final(self)@, id),
    {
        proof {
            use_type_invariant(&*self);
        }
        let ghost before = self@;
        match position_of(&self.rows, id) {
            None => {
                proof {
                    lemma_without_absent(before, id);
                }
                0
            },
            Some(i) => {
                let mut rows = Vec::new();
                std::mem::swap(&mut rows, &mut self.rows);
                rows.remove(i);
                proof {
                    assert(before[i as int].id == id);
                    lemma_without_present(before, self.last_id, i as int);
                    assert(transaction_models(rows@) =~= before.remove(i as int));
                    assert forall|k: int| 0 <= k < before.remove(i as int).len() implies (
                    #[trigger] before.remove(i as int)[k]).id != id by {
                        if k < i {
                            assert(before[k].id < before[i as int].id);
                        } else {
                            assert(before[i as int].id < before[k + 1].id);
                        }
                    }
                }
                self.rows = rows;
                1
            },
        }
    }

    /// The transactions dated inside `period`, later dates first; those of
    /// one day come in the order of their creation.
    pub fn list_in_period(&self, period: &Period) -> (r: Vec<BudgetTransaction>)
        ensures
            is_period_listing(transaction_models(r@), self@, *period),
    {
        proof {
            use_type_invariant(self);
        }
        let ghost models = self@;
        let mut listing: Vec<BudgetTransaction> = Vec::new();
        let mut k: usize = 0;
        while k < self.rows.len()
            invariant
                k <= self.rows.len(),
                models == transaction_models(self.rows@),
                transaction_ids_ascend(models, self.last_id),
                is_period_listing_upto(transaction_models(listing@), models, *period, k as int),
            decreases self.rows.len() - k,
        {
            let t = &self.rows[k];
            let ghost before = transaction_models(listing@);
            if period.contains(&t.date) {
                let pos = listing_point(&listing, &t.date);
                listing.insert(pos, t.snapshot());
                proof {
                    assert(transaction_models(listing@) =~= before.insert(
                        pos as int,
                        models[k as int],
                    ));
                    lemma_listing_grows(
                        before,
                        pos as int,
                        models,
                        self.last_id,
                        *period,
                        k as int,
                    );
                }
            } else {
                proof {
                    lemma_listing_skips(before, models, *period, k as int);
                }
            }
            k = k + 1;
        }
        proof {
            lemma_listing_complete(transaction_models(listing@), models, *period);
        }
        listing
    }

    /// Every transaction in the store, in creation order: identities are
    /// positive and strictly increasing.
    pub fn records(&self) -> (r: &Vec<BudgetTransaction>)
        ensures
            transaction_models(r@) == self@,
            transaction_ids_ascend(self@, self.last_id()),
    {
        proof {
            use_type_invariant(self);
        }
        &self.rows
    }
}

} // verus!
