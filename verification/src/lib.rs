//! Export of incoming transactions from the Up banking API.
//!
//! The library holds the verified logic of the exporter: the wire data
//! model, the pagination-following fetch loop expressed over one page
//! response at a time, the filter/projection of records down to credits,
//! and the CSV text that is written out. The surrounding binary performs
//! the HTTP requests and the file write and hands this crate plain values.

pub mod args;
pub mod csv_text;
pub mod fetch;
pub mod transactions;
pub mod up;
