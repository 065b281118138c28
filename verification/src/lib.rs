//! The taxes on the invoices of a freelancer, and the ledger that the invoices of a year
//! are kept in.
//!
//! An invoice is for a number of days at a daily rate. Its gross profit is split over the
//! marginal buckets of the income tax, on top of what was invoiced before in the year; the
//! income tax is taken on the portions, and a social contribution on what is counted as
//! left. Money is counted in whole nanos, so every figure is exact.
//!
//! The ledger of a year is a table of records, one for each invoice, behind a head that
//! names the fields. The library turns invoices into the bytes of records and back; reading
//! and writing the file is left to the caller.

pub mod amount;
pub mod brackets;
pub mod decimal;
pub mod invoice;
pub mod ledger;
pub mod taxes;
