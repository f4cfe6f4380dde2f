use up_transactions::fetch::PageResponse;
use up_transactions::fetch::UpError;
use up_transactions::fetch::bearer_header;
use up_transactions::fetch::fetch_all;
use up_transactions::fetch::fetch_step;
use up_transactions::transactions::MetaLinks;
use up_transactions::transactions::MoneyObject;
use up_transactions::transactions::TransactionAttributes;
use up_transactions::transactions::TransactionList;
use up_transactions::transactions::TransactionResource;
use up_transactions::transactions::TransactionStatusEnum;

fn record(id: &str, units: i64) -> TransactionResource {
    TransactionResource {
        _type: String::from("transactions"),
        id: String::from(id),
        attributes: TransactionAttributes {
            status: TransactionStatusEnum::SETTLED,
            raw_text: None,
            description: String::from("desc"),
            message: None,
            is_categorizable: true,
            amount: MoneyObject {
                currency_code: String::from("AUD"),
                value: String::from("1.00"),
                value_in_base_units: units,
            },
            settled_at: String::from("2023-05-01T10:00:00+10:00"),
            created_at: String::from("2023-05-01T09:00:00+10:00"),
        },
    }
}

fn page(ids: &[&str], next: Option<&str>) -> TransactionList {
    TransactionList {
        data: ids.iter().map(|id| record(id, 100)).collect(),
        links: MetaLinks { prev: None, next: next.map(String::from) },
    }
}

#[test]
fn concatenates_all_pages_in_order() {
    let responses = vec![
        PageResponse::Payload(page(&["a", "b"], Some("https://example.test/page/2"))),
        PageResponse::Payload(page(&["c"], Some("https://example.test/page/3"))),
        PageResponse::Payload(page(&["d", "e"], None)),
    ];
    let (result, requests) = fetch_all(responses);
    let records = result.unwrap();
    let ids: Vec<&str> = records.iter().map(|r| r.id.as_str()).collect();
    assert_eq!(ids, vec!["a", "b", "c", "d", "e"]);
    assert_eq!(requests, 3);
}

#[test]
fn single_page_returns_its_records() {
    let responses = vec![PageResponse::Payload(page(&["only-1", "only-2"], None))];
    let (result, requests) = fetch_all(responses);
    let records = result.unwrap();
    assert_eq!(records.len(), 2);
    assert_eq!(records[0].id, "only-1");
    assert_eq!(records[1].id, "only-2");
    assert_eq!(requests, 1);
}

#[test]
fn unauthorized_on_first_page_fails() {
    let responses = vec![PageResponse::Status(401)];
    let (result, requests) = fetch_all(responses);
    assert_eq!(result.unwrap_err(), UpError::AuthenticationError);
    assert_eq!(requests, 1);
}

#[test]
fn unauthorized_on_later_page_discards_partial_results() {
    let responses = vec![
        PageResponse::Payload(page(&["a"], Some("https://example.test/page/2"))),
        PageResponse::Status(401),
    ];
    let (result, requests) = fetch_all(responses);
    assert_eq!(result.unwrap_err(), UpError::AuthenticationError);
    assert_eq!(requests, 2);
}

#[test]
fn unknown_status_carries_its_code() {
    let responses = vec![PageResponse::Status(500)];
    let (result, requests) = fetch_all(responses);
    assert_eq!(result.unwrap_err(), UpError::UnknownStatusError(500));
    assert_eq!(requests, 1);
}

#[test]
fn malformed_body_is_a_deserialization_error() {
    let responses = vec![
        PageResponse::Payload(page(&["a"], Some("https://example.test/page/2"))),
        PageResponse::MalformedBody(String::from("missing field `data`")),
    ];
    let (result, requests) = fetch_all(responses);
    assert_eq!(result.unwrap_err(), UpError::DeserializationError(String::from("missing field `data`")));
    assert_eq!(requests, 2);
}

#[test]
fn step_appends_records_and_returns_next_link() {
    let mut accumulated = vec![record("a", 1)];
    let next = fetch_step(
        &mut accumulated,
        PageResponse::Payload(page(&["b", "c"], Some("https://example.test/page/2"))),
    )
    .unwrap();
    assert_eq!(next.as_deref(), Some("https://example.test/page/2"));
    let ids: Vec<&str> = accumulated.iter().map(|r| r.id.as_str()).collect();
    assert_eq!(ids, vec!["a", "b", "c"]);
}

#[test]
fn step_leaves_accumulator_alone_on_failure() {
    let mut accumulated = vec![record("a", 1)];
    let err = fetch_step(&mut accumulated, PageResponse::Status(503)).unwrap_err();
    assert_eq!(err, UpError::UnknownStatusError(503));
    assert_eq!(accumulated.len(), 1);
}

#[test]
fn missing_token_is_a_configuration_error() {
    assert_eq!(bearer_header(None).unwrap_err(), UpError::ConfigurationError);
}

#[test]
fn present_token_becomes_a_bearer_header() {
    let header = bearer_header(Some(String::from("example-token"))).unwrap();
    assert_eq!(header, "Bearer example-token");
}
