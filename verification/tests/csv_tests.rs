use up_transactions::csv_text::to_csv_string;
use up_transactions::transactions::parse_transactions;
use up_transactions::transactions::MoneyObject;
use up_transactions::transactions::TransactionAttributes;
use up_transactions::transactions::TransactionCSV;
use up_transactions::transactions::TransactionResource;
use up_transactions::transactions::TransactionStatusEnum;

const HEADER: &str = "status,raw_text,description,message,amount,value_in_base_units,created_at\n";

fn row(description: &str, message: Option<&str>, value: &str, units: i64) -> TransactionCSV {
    TransactionCSV {
        status: TransactionStatusEnum::SETTLED,
        raw_text: None,
        description: String::from(description),
        message: message.map(String::from),
        amount: String::from(value),
        value_in_base_units: units,
        created_at: String::from("2023-05-01T09:00:00+10:00"),
    }
}

#[test]
fn empty_row_set_yields_header_only() {
    let text = to_csv_string(&Vec::new());
    assert_eq!(text, HEADER);
}

#[test]
fn one_plain_row_renders_exactly() {
    let rows = vec![row("Salary", Some("hi"), "5.00", 500)];
    let text = to_csv_string(&rows);
    let expected =
        format!("{}SETTLED,,Salary,hi,5.00,500,2023-05-01T09:00:00+10:00\n", HEADER);
    assert_eq!(text, expected);
}

#[test]
fn held_status_and_raw_text_render() {
    let mut one = row("Pending refund", None, "1.23", 123);
    one.status = TransactionStatusEnum::HELD;
    one.raw_text = Some(String::from("EFTPOS 1234"));
    let text = to_csv_string(&vec![one]);
    let expected =
        format!("{}HELD,EFTPOS 1234,Pending refund,,1.23,123,2023-05-01T09:00:00+10:00\n", HEADER);
    assert_eq!(text, expected);
}

#[test]
fn fields_with_commas_are_quoted() {
    let rows = vec![row("bread, milk, eggs", None, "7.50", 750)];
    let text = to_csv_string(&rows);
    let expected = format!(
        "{}SETTLED,,\"bread, milk, eggs\",,7.50,750,2023-05-01T09:00:00+10:00\n",
        HEADER
    );
    assert_eq!(text, expected);
}

#[test]
fn quotes_inside_fields_are_doubled() {
    let rows = vec![row("say \"hello\"", Some("a\nb"), "0.01", 1)];
    let text = to_csv_string(&rows);
    let expected = format!(
        "{}SETTLED,,\"say \"\"hello\"\"\",\"a\nb\",0.01,1,2023-05-01T09:00:00+10:00\n",
        HEADER
    );
    assert_eq!(text, expected);
}

#[test]
fn negative_and_extreme_amounts_render_in_decimal() {
    let rows = vec![
        row("negative", None, "-0.42", -42),
        row("smallest", None, "x", i64::MIN),
        row("largest", None, "y", i64::MAX),
        row("zero", None, "z", 0),
    ];
    let text = to_csv_string(&rows);
    let lines: Vec<&str> = text.lines().collect();
    assert_eq!(lines.len(), 5);
    assert!(lines[1].contains(",-42,"));
    assert!(lines[2].contains(",-9223372036854775808,"));
    assert!(lines[3].contains(",9223372036854775807,"));
    assert!(lines[4].contains(",0,"));
}

#[test]
fn row_order_is_preserved_in_the_file() {
    let rows = vec![row("first", None, "0.05", 5), row("second", None, "0.10", 10)];
    let text = to_csv_string(&rows);
    let lines: Vec<&str> = text.lines().collect();
    assert_eq!(lines.len(), 3);
    assert!(lines[1].contains("first"));
    assert!(lines[2].contains("second"));
}

#[test]
fn carriage_returns_force_quoting() {
    let rows = vec![row("a\rb", None, "0.01", 1)];
    let text = to_csv_string(&rows);
    let expected =
        format!("{}SETTLED,,\"a\rb\",,0.01,1,2023-05-01T09:00:00+10:00\n", HEADER);
    assert_eq!(text, expected);
}

#[test]
fn fetched_records_flow_through_to_the_file_text() {
    let make = |desc: &str, value: &str, units: i64| TransactionResource {
        _type: String::from("transactions"),
        id: String::from("id"),
        attributes: TransactionAttributes {
            status: TransactionStatusEnum::SETTLED,
            raw_text: None,
            description: String::from(desc),
            message: None,
            is_categorizable: true,
            amount: MoneyObject {
                currency_code: String::from("AUD"),
                value: String::from(value),
                value_in_base_units: units,
            },
            settled_at: String::from("2023-05-01T10:00:00+10:00"),
            created_at: String::from("2023-05-01T09:00:00+10:00"),
        },
    };
    let records = vec![
        make("salary", "1000.00", 100000),
        make("groceries", "-42.00", -4200),
        make("refund", "5.50", 550),
    ];
    let rows = parse_transactions(records).unwrap();
    let text = to_csv_string(&rows);
    let expected = format!(
        "{}SETTLED,,salary,,1000.00,100000,2023-05-01T09:00:00+10:00\n\
         SETTLED,,refund,,5.50,550,2023-05-01T09:00:00+10:00\n",
        HEADER
    );
    assert_eq!(text, expected);
}

#[test]
fn round_trips_through_a_standard_csv_reader() {
    let rows = vec![
        row("plain description", Some("note"), "5.00", 500),
        row("with, comma", Some("say \"hi\""), "10.00", 1000),
        row("line\nbreak", None, "-3.00", -300),
    ];
    let text = to_csv_string(&rows);
    let mut reader = csv::ReaderBuilder::new().from_reader(text.as_bytes());
    let headers = reader.headers().unwrap().clone();
    let header_fields: Vec<&str> = headers.iter().collect();
    assert_eq!(
        header_fields,
        vec!["status", "raw_text", "description", "message", "amount", "value_in_base_units", "created_at"]
    );
    let records: Vec<csv::StringRecord> =
        reader.records().map(|r| r.unwrap()).collect();
    assert_eq!(records.len(), rows.len());
    for (record, original) in records.iter().zip(rows.iter()) {
        assert_eq!(&record[0], "SETTLED");
        assert_eq!(&record[1], original.raw_text.as_deref().unwrap_or(""));
        assert_eq!(&record[2], original.description.as_str());
        assert_eq!(&record[3], original.message.as_deref().unwrap_or(""));
        assert_eq!(&record[4], original.amount.as_str());
        assert_eq!(&record[5], original.value_in_base_units.to_string().as_str());
        assert_eq!(&record[6], original.created_at.as_str());
    }
}
