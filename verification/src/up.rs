//! Response envelope of the Up API.

use vstd::prelude::*;
use crate::transactions::MetaLinks;
use crate::transactions::TransactionResource;

verus! {

/// A response from the API: the records of one page and its pagination
/// links.
#[derive(Debug)]
pub struct UpResponse {
    pub data: Vec<TransactionResource>,
    pub links: MetaLinks,
}

} // verus!
