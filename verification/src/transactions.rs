//! Transaction wire model and the credit filter/projection.
//!
//! The types mirror the JSON bodies the transactions endpoint returns.
//! `parse_transactions` keeps exactly the records whose signed minor-unit
//! amount is strictly positive and projects each onto the narrow row shape
//! that is written to the CSV file, preserving the fetch order.

use vstd::prelude::*;

verus! {

/// Settlement status of a transaction.
#[derive(Clone, Copy, PartialEq, Eq, Structural, Debug)]
pub enum TransactionStatusEnum {
    HELD,
    SETTLED,
}

/// A monetary amount: the integer minor-unit value is the authoritative
/// signed amount (positive = credit, negative = debit).
#[derive(Debug)]
pub struct MoneyObject {
    pub currency_code: String,
    pub value: String,
    pub value_in_base_units: i64,
}

/// The attributes of one transaction as the API reports them.
#[derive(Debug)]
pub struct TransactionAttributes {
    pub status: TransactionStatusEnum,
    pub raw_text: Option<String>,
    pub description: String,
    pub message: Option<String>,
    pub is_categorizable: bool,
    pub amount: MoneyObject,
    pub settled_at: String,
    pub created_at: String,
}

/// One transaction resource: its resource type tag, identifier and attributes.
#[derive(Debug)]
pub struct TransactionResource {
    pub _type: String,
    pub id: String,
    pub attributes: TransactionAttributes,
}

/// Pagination links of a page: `next` absent means the final page.
#[derive(Debug)]
pub struct MetaLinks {
    pub prev: Option<String>,
    pub next: Option<String>,
}

/// One page of the paginated transactions collection.
#[derive(Debug)]
pub struct TransactionList {
    pub data: Vec<TransactionResource>,
    pub links: MetaLinks,
}

/// Amount withheld while a transaction is in the HELD state.
#[derive(Debug)]
pub struct HoldInfoObject {
    pub amount: MoneyObject,
    pub foreign_amount: Option<MoneyObject>,
}

/// Round-up contribution attached to a transaction.
#[derive(Debug)]
pub struct RoundUpObject {
    pub amount: MoneyObject,
    pub boost_portion: Option<MoneyObject>,
}

/// Cashback attached to a transaction.
#[derive(Debug)]
pub struct CashbackObject {
    pub description: String,
    pub amount: MoneyObject,
}

/// One row of the output file: the write-only projection of a credit
/// transaction.
#[derive(Debug)]
pub struct TransactionCSV {
    pub status: TransactionStatusEnum,
    pub raw_text: Option<String>,
    pub description: String,
    pub message: Option<String>,
    pub amount: String,
    pub value_in_base_units: i64,
    pub created_at: String,
}

/// A record is kept iff its signed minor-unit amount is strictly positive.
pub open spec fn is_income(t: TransactionResource) -> bool {
    t.attributes.amount.value_in_base_units > 0
}

/// The projection of one kept record onto an output row.
pub open spec fn to_row(t: TransactionResource) -> TransactionCSV {
    TransactionCSV {
        status: t.attributes.status,
        raw_text: t.attributes.raw_text,
        description: t.attributes.description,
        message: t.attributes.message,
        amount: t.attributes.amount.value,
        value_in_base_units: t.attributes.amount.value_in_base_units,
        created_at: t.attributes.created_at,
    }
}

/// The rows that a record sequence yields: the income records, in order,
/// each projected onto a row.
pub open spec fn income_rows(ts: Seq<TransactionResource>) -> Seq<TransactionCSV>
    decreases ts.len(),
{
    if ts.len() == 0 {
        Seq::empty()
    } else if is_income(ts[0]) {
        seq![to_row(ts[0])] + income_rows(ts.skip(1))
    } else {
        income_rows(ts.skip(1))
    }
}

/// How many records of the sequence are income records.
pub open spec fn income_count(ts: Seq<TransactionResource>) -> nat
    decreases ts.len(),
{
    if ts.len() == 0 {
        0
    } else {
        (if is_income(ts[0]) {
            1nat
        } else {
            0nat
        }) + income_count(ts.skip(1))
    }
}

/// Law: the output has exactly one row per income record — records whose
/// amount is zero or negative yield none — and no row of the output
/// carries a minor-unit amount that is zero or negative.
pub proof fn lemma_income_rows_positive(ts: Seq<TransactionResource>)
    ensures
        income_rows(ts).len() == income_count(ts),
        forall|i: int|
            0 <= i < income_rows(ts).len() ==> (#[trigger] income_rows(ts)[i]).value_in_base_units
                > 0,
    decreases ts.len(),
{
    if ts.len() > 0 {
        lemma_income_rows_positive(ts.skip(1));
        if is_income(ts[0]) {
            assert forall|i: int| 0 <= i < income_rows(ts).len() implies (#[trigger] income_rows(
                ts,
            )[i]).value_in_base_units > 0 by {
                if i == 0 {
                    assert(income_rows(ts)[0] == to_row(ts[0]));
                } else {
                    assert(income_rows(ts)[i] == income_rows(ts.skip(1))[i - 1]);
                }
            }
        }
    }
}

/// The income predicate as a closure value, for stating laws over
/// `Seq::filter`.
pub open spec fn is_income_pred() -> spec_fn(TransactionResource) -> bool {
    |t: TransactionResource| is_income(t)
}

/// The row projection as a closure value, for stating laws over
/// `Seq::map_values`.
pub open spec fn to_row_fn() -> spec_fn(TransactionResource) -> TransactionCSV {
    |t: TransactionResource| to_row(t)
}

/// Law: the rows of a concatenation are the rows of the parts, in order.
pub proof fn lemma_income_rows_add(a: Seq<TransactionResource>, b: Seq<TransactionResource>)
    ensures
        income_rows(a + b) == income_rows(a) + income_rows(b),
    decreases a.len(),
{
    if a.len() == 0 {
        assert(a + b =~= b);
        assert(income_rows(a) + income_rows(b) =~= income_rows(b));
    } else {
        assert((a + b).skip(1) =~= a.skip(1) + b);
        lemma_income_rows_add(a.skip(1), b);
        if is_income(a[0]) {
            assert(seq![to_row(a[0])] + (income_rows(a.skip(1)) + income_rows(b)) =~= (seq![
                to_row(a[0]),
            ] + income_rows(a.skip(1))) + income_rows(b));
        }
    }
}

/// Law: the output row order equals the filtered input order — the rows
/// are exactly the income records in fetch order, each projected onto a
/// row, with no reordering.
pub proof fn lemma_income_rows_order(ts: Seq<TransactionResource>)
    ensures
        income_rows(ts) == ts.filter(is_income_pred()).map_values(to_row_fn()),
    decreases ts.len(),
{
    reveal(Seq::filter);
    let p = is_income_pred();
    let f = to_row_fn();
    if ts.len() == 0 {
        assert(income_rows(ts) =~= ts.filter(p).map_values(f));
    } else {
        let a = ts.drop_last();
        let x = ts.last();
        lemma_income_rows_order(a);
        lemma_income_rows_add(a, seq![x]);
        assert(a + seq![x] =~= ts);
        assert(seq![x].skip(1) =~= Seq::<TransactionResource>::empty());
        assert(income_rows(Seq::<TransactionResource>::empty()) == Seq::<TransactionCSV>::empty());
        assert(seq![x][0] == x);
        if is_income(x) {
            assert(income_rows(seq![x]) =~= seq![to_row(x)]);
            assert(ts.filter(p) == a.filter(p).push(x));
            assert(ts.filter(p).map_values(f) =~= a.filter(p).map_values(f) + seq![to_row(x)]);
        } else {
            assert(income_rows(seq![x]) =~= Seq::<TransactionCSV>::empty());
            assert(ts.filter(p) == a.filter(p));
            assert(income_rows(ts) =~= income_rows(a));
        }
    }
}

/// Filters the fetched records down to credits and projects each kept
/// record onto an output row, in the original order. Never fails.
pub fn parse_transactions(transactions: Vec<TransactionResource>) -> (r: Result<
    Vec<TransactionCSV>,
    String,
>)
    ensures
        r is Ok,
        r->Ok_0@ == income_rows(transactions@),
{
    let ghost all = transactions@;
    let mut rest = transactions;
    let mut income: Vec<TransactionCSV> = Vec::new();
    while rest.len() > 0
        invariant
            income_rows(all) == income@ + income_rows(rest@),
        decreases rest@.len(),
    {
        let ghost before = rest@;
        let t = rest.remove(0);
        proof {
            assert(rest@ =~= before.skip(1));
        }
        if t.attributes.amount.value_in_base_units > 0 {
            income.push(
                TransactionCSV {
                    status: t.attributes.status,
                    raw_text: t.attributes.raw_text,
                    description: t.attributes.description,
                    message: t.attributes.message,
                    amount: t.attributes.amount.value,
                    value_in_base_units: t.attributes.amount.value_in_base_units,
                    created_at: t.attributes.created_at,
                },
            );
            proof {
                assert(income@.drop_last() + seq![to_row(before[0])] + income_rows(rest@) =~= income@
                    + income_rows(rest@));
            }
        }
    }
    proof {
        assert(income@ + income_rows(rest@) =~= income@);
    }
    Ok(income)
}

} // verus!
