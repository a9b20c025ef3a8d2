//! A personal budget ledger: user-defined categories, the transactions filed
//! under them, and the figures of a month.
//!
//! * [`date`] resolves a month into the half-open interval of its dates, and
//!   [`date_text`] writes and reads dates in the form `YYYY-MM-DD`.
//! * [`category`] and [`transaction`] hold the records and the stores that
//!   keep them: categories are switched off rather than removed,
//!   transactions are updated field by field and removed for good.
//! * [`summary`] draws income, expenses, balance and the share of each
//!   category from the transactions of an interval.
//! * [`ledger`] puts the stores together and stamps what it writes with the
//!   system clock.
//!
//! Amounts are whole minor currency units, shares are hundredths of a
//! percent, and instants are milliseconds since the Unix epoch. Every
//! operation is stated over the mathematical value of the records, their
//! view, and proved to do what it states.

pub mod category;
mod clock;
pub mod date;
pub mod date_text;
pub mod error;
pub mod ledger;
pub mod summary;
pub mod text;
pub mod transaction;
