//! Descriptive statistics of the numeric columns of delimited text.
//!
//! `columns` reads a table into named columns of cells; `eda` picks each
//! column's present values and summarises the columns that have any;
//! `summary` locates the minimum, maximum and quartiles among the sorted
//! values; `order` sorts them; `number` models a binary64 value by its bit
//! pattern and orders those patterns numerically.

pub mod columns;
pub mod eda;
pub mod number;
pub mod order;
pub mod summary;
