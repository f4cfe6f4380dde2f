//! The pagination-following fetch loop, expressed over page responses.
//!
//! The binary performs one HTTP GET per page and hands the library the
//! outcome as a [`PageResponse`]: a 200 whose body parsed into a
//! [`TransactionList`], a 200 whose body was malformed, or another status
//! code. [`fetch_step`] decides what one response means — append the
//! page's records and follow its `next` link, or fail — and [`fetch_all`]
//! runs that decision over a whole response sequence, so the loop's
//! behaviour is stated and proved here while the I/O stays outside.

use vstd::prelude::*;
use vstd::string::*;
use crate::transactions::TransactionList;
use crate::transactions::TransactionResource;

verus! {

/// The failures of a run, one variant per failure path.
#[derive(PartialEq, Eq, Debug)]
pub enum UpError {
    /// The API token is missing from the environment.
    ConfigurationError,
    /// The server answered 401 to some page request.
    AuthenticationError,
    /// The server answered a status other than 200 or 401; carries the code.
    UnknownStatusError(u16),
    /// A 200 response body did not parse; carries the parse failure detail.
    DeserializationError(String),
    /// Creating or writing the output file failed; carries the detail.
    IOError(String),
}

/// Builds the Authorization header value for the configured token; a
/// missing token is the fatal configuration error, not a retryable one.
pub fn bearer_header(token: Option<String>) -> (r: Result<String, UpError>)
    ensures
        match token {
            Option::Some(t) => r matches Ok(h) && h@ == "Bearer "@ + t@,
            Option::None => r == Result::<String, UpError>::Err(UpError::ConfigurationError),
        },
{
    match token {
        Option::Some(t) => {
            let mut header = String::from_str("Bearer ");
            header.append(t.as_str());
            Ok(header)
        },
        Option::None => Err(UpError::ConfigurationError),
    }
}

/// What one page request produced, as the binary hands it to the library.
#[derive(Debug)]
pub enum PageResponse {
    /// Status 200 and the body parsed.
    Payload(TransactionList),
    /// Status 200 but the body did not parse; carries the failure detail.
    MalformedBody(String),
    /// Any status other than 200.
    Status(u16),
}

/// The error a non-200 status yields: 401 is the authentication failure,
/// every other code the unknown-status failure carrying that code.
pub open spec fn status_error(code: u16) -> UpError {
    if code == 401 {
        UpError::AuthenticationError
    } else {
        UpError::UnknownStatusError(code)
    }
}

/// Decides what one page response means. On a parsed 200 page the page's
/// records are appended to the accumulator, in their order, and the link
/// to request next — absent on the final page — is returned. Every other
/// response leaves the accumulator unchanged and fails the fetch.
pub fn fetch_step(accumulated: &mut Vec<TransactionResource>, response: PageResponse) -> (r: Result<
    Option<String>,
    UpError,
>)
    ensures
        match response {
            PageResponse::Payload(page) => r == Result::<Option<String>, UpError>::Ok(
                page.links.next,
            ) && final(accumulated)@ == old(accumulated)@ + page.data@,
            PageResponse::MalformedBody(detail) => r == Result::<Option<String>, UpError>::Err(
                UpError::DeserializationError(detail),
            ) && final(accumulated)@ == old(accumulated)@,
            PageResponse::Status(code) => r == Result::<Option<String>, UpError>::Err(
                status_error(code),
            ) && final(accumulated)@ == old(accumulated)@,
        },
{
    match response {
        PageResponse::Payload(page) => {
            let TransactionList { mut data, links } = page;
            accumulated.append(&mut data);
            Ok(links.next)
        },
        PageResponse::MalformedBody(detail) => Err(UpError::DeserializationError(detail)),
        PageResponse::Status(code) => {
            if code == 401 {
                Err(UpError::AuthenticationError)
            } else {
                Err(UpError::UnknownStatusError(code))
            }
        },
    }
}

/// What a fetch run over the given response sequence yields: the
/// concatenated records of the pages up to the first one without a `next`
/// link, or the first failure; `None` when the sequence ends while a
/// `next` link is still pending, which a complete run never does.
pub open spec fn fetch_spec(rs: Seq<PageResponse>) -> Option<
    Result<Seq<TransactionResource>, UpError>,
>
    decreases rs.len(),
{
    if rs.len() == 0 {
        None
    } else {
        match rs[0] {
            PageResponse::Payload(page) => match page.links.next {
                Option::None => Some(Result::Ok(page.data@)),
                Option::Some(_) => match fetch_spec(rs.skip(1)) {
                    Some(Result::Ok(rest)) => Some(Result::Ok(page.data@ + rest)),
                    other => other,
                },
            },
            PageResponse::MalformedBody(detail) => Some(
                Result::Err(UpError::DeserializationError(detail)),
            ),
            PageResponse::Status(code) => Some(Result::Err(status_error(code))),
        }
    }
}

/// How many requests a fetch run over the given response sequence issues:
/// one per response consumed, stopping at the first page without a `next`
/// link or at the first failure.
pub open spec fn fetch_requests(rs: Seq<PageResponse>) -> nat
    decreases rs.len(),
{
    if rs.len() == 0 {
        0
    } else {
        match rs[0] {
            PageResponse::Payload(page) => if page.links.next is Some {
                1 + fetch_requests(rs.skip(1))
            } else {
                1
            },
            _ => 1,
        }
    }
}

/// The record sequence of a fetched result, for stating contracts.
pub open spec fn view_result(r: Result<Vec<TransactionResource>, UpError>) -> Result<
    Seq<TransactionResource>,
    UpError,
> {
    match r {
        Result::Ok(v) => Result::Ok(v@),
        Result::Err(e) => Result::Err(e),
    }
}

/// Runs the fetch decision over a whole response sequence, one response
/// per request in order, and returns what the run yields together with
/// how many requests it issued. Partial results are discarded on failure.
#[verifier::loop_isolation(false)]
pub fn fetch_all(responses: Vec<PageResponse>) -> (r: (
    Result<Vec<TransactionResource>, UpError>,
    usize,
))
    requires
        fetch_spec(responses@) is Some,
    ensures
        Some(view_result(r.0)) == fetch_spec(responses@),
        r.1 == fetch_requests(responses@),
{
    let ghost all = responses@;
    let mut rest = responses;
    let total = rest.len();
    let mut accumulated: Vec<TransactionResource> = Vec::new();
    let mut count: usize = 0;
    loop
        invariant
            fetch_spec(rest@) is Some,
            count + rest@.len() == total,
            fetch_spec(all) == match fetch_spec(rest@) {
                Some(Result::<Seq<TransactionResource>, UpError>::Ok(s)) => Some(
                    Result::<Seq<TransactionResource>, UpError>::Ok(accumulated@ + s),
                ),
                other => other,
            },
            fetch_requests(all) == count + fetch_requests(rest@),
        decreases rest@.len(),
    {
        let ghost before = rest@;
        let resp = rest.remove(0);
        count = count + 1;
        proof {
            assert(rest@ =~= before.skip(1));
        }
        let ghost acc_before = accumulated@;
        match fetch_step(&mut accumulated, resp) {
            Ok(Some(_next_link)) => {
                proof {
                    let page = resp->Payload_0;
                    if let Some(Result::<Seq<TransactionResource>, UpError>::Ok(s)) = fetch_spec(
                        rest@,
                    ) {
                        assert((acc_before + page.data@) + s =~= acc_before + (page.data@ + s));
                    }
                }
            },
            Ok(None) => {
                proof {
                    let page = resp->Payload_0;
                    assert(fetch_spec(before) == Some(
                        Result::<Seq<TransactionResource>, UpError>::Ok(page.data@),
                    ));
                    assert(fetch_spec(all) == Some(
                        Result::<Seq<TransactionResource>, UpError>::Ok(accumulated@),
                    ));
                }
                return (Ok(accumulated), count);
            },
            Err(failure) => {
                proof {
                    assert(fetch_spec(before) == Some(
                        Result::<Seq<TransactionResource>, UpError>::Err(failure),
                    ));
                }
                return (Err(failure), count);
            },
        }
    }
}

/// The records one response contributes: those of a parsed page, in the
/// page's own order; a failed response contributes none.
pub open spec fn page_records(r: PageResponse) -> Seq<TransactionResource> {
    match r {
        PageResponse::Payload(page) => page.data@,
        _ => Seq::empty(),
    }
}

/// The concatenation of the records of all responses, in response order.
pub open spec fn all_records(rs: Seq<PageResponse>) -> Seq<TransactionResource>
    decreases rs.len(),
{
    if rs.len() == 0 {
        Seq::empty()
    } else {
        page_records(rs[0]) + all_records(rs.skip(1))
    }
}

/// A parsed page that carries a `next` link: the fetch goes on after it.
pub open spec fn is_linking_page(r: PageResponse) -> bool {
    r matches PageResponse::Payload(page) && page.links.next is Some
}

/// A parsed page without a `next` link: the final page of a collection.
pub open spec fn is_final_page(r: PageResponse) -> bool {
    r matches PageResponse::Payload(page) && page.links.next is None
}

/// A well-formed page sequence: every response is a parsed page, and
/// exactly the pages before the last carry a `next` link.
pub open spec fn pages_well_formed(rs: Seq<PageResponse>) -> bool {
    forall|i: int|
        #![trigger rs[i]]
        0 <= i < rs.len() ==> if i < rs.len() - 1 {
            is_linking_page(rs[i])
        } else {
            is_final_page(rs[i])
        }
}

/// Law: over a well-formed sequence of N pages the fetch issues exactly N
/// requests — one per page — and yields the concatenation of all pages'
/// records in page order, each page's own record order kept.
pub proof fn lemma_fetch_all_pages(rs: Seq<PageResponse>)
    requires
        rs.len() > 0,
        pages_well_formed(rs),
    ensures
        fetch_spec(rs) == Some(Result::<Seq<TransactionResource>, UpError>::Ok(all_records(rs))),
        fetch_requests(rs) == rs.len(),
    decreases rs.len(),
{
    let page = rs[0]->Payload_0;
    if rs.len() == 1 {
        assert(is_final_page(rs[0]));
        assert(all_records(rs.skip(1)) == Seq::<TransactionResource>::empty());
        assert(all_records(rs) =~= page.data@);
    } else {
        assert(is_linking_page(rs[0]));
        assert forall|i: int|
            #![trigger rs.skip(1)[i]]
            0 <= i < rs.skip(1).len() implies if i < rs.skip(1).len() - 1 {
            is_linking_page(rs.skip(1)[i])
        } else {
            is_final_page(rs.skip(1)[i])
        } by {
            assert(rs.skip(1)[i] == rs[i + 1]);
        }
        lemma_fetch_all_pages(rs.skip(1));
    }
}

/// Law: when the first response is a parsed page with no `next` link, the
/// fetch returns exactly that page's records after a single request,
/// whatever would have come later.
pub proof fn lemma_fetch_single_page(rs: Seq<PageResponse>, page: TransactionList)
    requires
        rs.len() > 0,
        rs[0] == PageResponse::Payload(page),
        page.links.next is None,
    ensures
        fetch_spec(rs) == Some(Result::<Seq<TransactionResource>, UpError>::Ok(page.data@)),
        fetch_requests(rs) == 1,
{
}

/// Law: a non-200 status at any page — after parsed pages that each carry
/// a `next` link — fails the whole fetch right after that request and
/// returns no records: 401 yields the authentication error, and every
/// other code the unknown-status error carrying that code.
pub proof fn lemma_fetch_status_error(rs: Seq<PageResponse>, i: int)
    requires
        0 <= i < rs.len(),
        rs[i] matches PageResponse::Status(_),
        forall|j: int| 0 <= j < i ==> is_linking_page(#[trigger] rs[j]),
    ensures
        fetch_spec(rs) == Some(
            Result::<Seq<TransactionResource>, UpError>::Err(status_error(rs[i]->Status_0)),
        ),
        fetch_requests(rs) == i + 1,
    decreases i,
{
    if i > 0 {
        assert(is_linking_page(rs[0]));
        assert forall|j: int| 0 <= j < i - 1 implies is_linking_page(#[trigger] rs.skip(1)[j]) by {
            assert(rs.skip(1)[j] == rs[j + 1]);
        }
        assert(rs.skip(1)[i - 1] == rs[i]);
        lemma_fetch_status_error(rs.skip(1), i - 1);
    }
}

} // verus!
