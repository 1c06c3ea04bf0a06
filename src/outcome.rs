//! What a store result means for the user.
//!
//! The store reports a broken uniqueness constraint with its own error code.
//! Creating a warehouse or a rule that exists is then a plain "already
//! exists", and adding an item that exists turns into an increment of its
//! quantity. Any other error is shown with its message.
use vstd::prelude::*;
use vstd::string::StringExecFns;
use crate::sql::{increment_item, Statement, StatementV, ParamV, INCREMENT_ITEM};

verus! {

/// SQLite's extended result code for a broken UNIQUE constraint.
pub const UNIQUE_VIOLATION: &'static str = "2067";

/// An error of the store: its code, where it gives one, and its message.
#[derive(Debug)]
pub struct StoreError {
    pub code: Option<String>,
    pub message: String,
}

/// Whether `e` reports a broken uniqueness constraint.
pub open spec fn unique_violation(e: StoreError) -> bool {
    e.code matches Some(c) && c@ == UNIQUE_VIOLATION@
}

/// Whether `e` reports a broken uniqueness constraint.
pub fn is_unique_violation(e: &StoreError) -> (r: bool)
    ensures
        r == unique_violation(*e),
{
    match &e.code {
        Some(c) => {
            let expected = String::from_str(UNIQUE_VIOLATION);
            *c == expected
        },
        None => false,
    }
}

/// The outcome of creating a warehouse or a rule.
#[derive(Debug, PartialEq, Eq)]
pub enum CreateOutcome {
    Created,
    AlreadyExists,
    Failed(String),
}

/// The outcome of a creation whose store result is `res`.
pub fn create_outcome(res: Result<(), StoreError>) -> (r: CreateOutcome)
    ensures
        res is Ok ==> r is Created,
        res matches Err(e) ==> (if unique_violation(e) {
            r is AlreadyExists
        } else {
            r matches CreateOutcome::Failed(m) && m@ == e.message@
        }),
{
    match res {
        Ok(()) => CreateOutcome::Created,
        Err(e) => {
            if is_unique_violation(&e) {
                CreateOutcome::AlreadyExists
            } else {
                CreateOutcome::Failed(e.message)
            }
        },
    }
}

/// The outcome of adding a quantity of an item to a warehouse.
#[derive(Debug, PartialEq, Eq)]
pub enum AddOutcome {
    /// The item was new and was inserted.
    Inserted,
    /// The item existed and its quantity was increased.
    Incremented,
    /// The insertion failed for a reason other than an existing item.
    InsertFailed(String),
    /// The item existed, and the increment that followed failed.
    IncrementFailed(String),
}

/// What follows the insertion of an item.
#[derive(Debug)]
pub enum AddNext {
    /// Nothing: the addition is over.
    Done(AddOutcome),
    /// The item exists: run this increment, then call [`add_after_increment`].
    Run(Statement),
}

/// The step that follows the insertion of `quantity` of `item` into
/// `warehouse`, whose store result is `res`.
pub fn add_after_insert(warehouse: &str, item: &str, quantity: i64, res: Result<(), StoreError>) -> (r: AddNext)
    ensures
        res is Ok ==> r matches AddNext::Done(AddOutcome::Inserted),
        res matches Err(e) ==> (if unique_violation(e) {
            r matches AddNext::Run(st) && st@ == (StatementV {
                text: INCREMENT_ITEM@,
                params: seq![ParamV::Int(quantity as int), ParamV::Text(warehouse@), ParamV::Text(item@)],
            })
        } else {
            r matches AddNext::Done(AddOutcome::InsertFailed(m)) && m@ == e.message@
        }),
{
    match res {
        Ok(()) => AddNext::Done(AddOutcome::Inserted),
        Err(e) => {
            if is_unique_violation(&e) {
                AddNext::Run(increment_item(warehouse, item, quantity))
            } else {
                AddNext::Done(AddOutcome::InsertFailed(e.message))
            }
        },
    }
}

/// The outcome of an addition whose increment has the store result `res`.
pub fn add_after_increment(res: Result<(), StoreError>) -> (r: AddOutcome)
    ensures
        res is Ok ==> r is Incremented,
        res matches Err(e) ==> (r matches AddOutcome::IncrementFailed(m) && m@ == e.message@),
{
    match res {
        Ok(()) => AddOutcome::Incremented,
        Err(e) => AddOutcome::IncrementFailed(e.message),
    }
}

/// What a query that lists rows found.
#[derive(Debug)]
pub enum Listing<T> {
    Rows(Vec<T>),
    /// The query succeeded and found nothing.
    Empty,
    Failed(String),
}

/// What a listing query whose store result is `res` found.
pub fn listing<T>(res: Result<Vec<T>, StoreError>) -> (r: Listing<T>)
    ensures
        res matches Ok(v) ==> (if v@.len() == 0 {
            r is Empty
        } else {
            r matches Listing::Rows(w) && w@ == v@
        }),
        res matches Err(e) ==> (r matches Listing::Failed(m) && m@ == e.message@),
{
    match res {
        Ok(v) => {
            if v.len() == 0 {
                Listing::Empty
            } else {
                Listing::Rows(v)
            }
        },
        Err(e) => Listing::Failed(e.message),
    }
}

} // verus!
