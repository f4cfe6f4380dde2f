//! Command-line surface of the exporter, as plain data.
//!
//! The binary parses its arguments with an argument-parser crate and then
//! builds these values; the library only reads them.

use vstd::prelude::*;

verus! {

/// Arguments of the `transactions` subcommand: the requested page size.
#[derive(Clone, Copy, PartialEq, Eq, Structural, Debug)]
pub struct TransactionsArgs {
    pub size: i8,
}

/// The subcommands the exporter accepts.
#[derive(Clone, Copy, PartialEq, Eq, Structural, Debug)]
pub enum Command {
    Transactions(TransactionsArgs),
}

} // verus!
