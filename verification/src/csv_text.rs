//! The text of the output CSV file, character by character.
//!
//! The file starts with a header line naming each output field, then one
//! line per output row in order. A field is quoted exactly when it
//! contains a comma, a double quote, or a line break; inside a quoted
//! field each double quote is doubled. The binary writes the rendered
//! text to the destination file unchanged.

use vstd::prelude::*;
use vstd::string::*;
use crate::transactions::TransactionCSV;
use crate::transactions::TransactionStatusEnum;

verus! {

/// A character that forces a field to be quoted.
pub open spec fn is_special_char(c: char) -> bool {
    c == ',' || c == '"' || c == '\n' || c == '\r'
}

/// Whether a field must be quoted to survive a CSV round trip.
pub open spec fn needs_quoting(s: Seq<char>) -> bool {
    exists|j: int| 0 <= j < s.len() && is_special_char(#[trigger] s[j])
}

/// A field's characters with each double quote doubled.
pub open spec fn escape_quotes(s: Seq<char>) -> Seq<char>
    decreases s.len(),
{
    if s.len() == 0 {
        Seq::empty()
    } else {
        (if s[0] == '"' {
            seq!['"', '"']
        } else {
            seq![s[0]]
        }) + escape_quotes(s.skip(1))
    }
}

/// Law: escaping a concatenation escapes the parts in place.
pub proof fn lemma_escape_quotes_add(a: Seq<char>, b: Seq<char>)
    ensures
        escape_quotes(a + b) == escape_quotes(a) + escape_quotes(b),
    decreases a.len(),
{
    if a.len() == 0 {
        assert(a + b =~= b);
        assert(escape_quotes(a) + escape_quotes(b) =~= escape_quotes(b));
    } else {
        assert((a + b).skip(1) =~= a.skip(1) + b);
        lemma_escape_quotes_add(a.skip(1), b);
        let head = if a[0] == '"' {
            seq!['"', '"']
        } else {
            seq![a[0]]
        };
        assert(head + (escape_quotes(a.skip(1)) + escape_quotes(b)) =~= (head + escape_quotes(
            a.skip(1),
        )) + escape_quotes(b));
    }
}

/// One encoded field: quoted with doubled quotes when it holds a special
/// character, the characters themselves otherwise.
pub open spec fn encode_field(s: Seq<char>) -> Seq<char> {
    if needs_quoting(s) {
        seq!['"'] + escape_quotes(s) + seq!['"']
    } else {
        s
    }
}

/// The characters a status renders as.
pub open spec fn status_chars(s: TransactionStatusEnum) -> Seq<char> {
    match s {
        TransactionStatusEnum::HELD => "HELD"@,
        TransactionStatusEnum::SETTLED => "SETTLED"@,
    }
}

/// The characters of an optional field: absent renders as the empty field.
pub open spec fn opt_chars(s: Option<String>) -> Seq<char> {
    match s {
        Option::Some(t) => t@,
        Option::None => Seq::empty(),
    }
}

/// The decimal digit character of `d` (0 ≤ d < 10).
pub open spec fn digit_char(d: int) -> char {
    ((48 + d) as u8) as char
}

/// The decimal digits of a non-negative number, most significant first.
pub open spec fn dec_digits(n: nat) -> Seq<char>
    decreases n,
{
    if n < 10 {
        seq![digit_char(n as int)]
    } else {
        dec_digits(n / 10) + seq![digit_char((n % 10) as int)]
    }
}

/// The decimal rendering of a signed number.
pub open spec fn dec_int(v: int) -> Seq<char> {
    if v < 0 {
        seq!['-'] + dec_digits((-v) as nat)
    } else {
        dec_digits(v as nat)
    }
}

/// One encoded output row: its seven fields in order, comma separated,
/// ended by a line feed.
pub open spec fn encode_row(r: TransactionCSV) -> Seq<char> {
    encode_field(status_chars(r.status)) + seq![','] + encode_field(opt_chars(r.raw_text)) + seq![
        ',',
    ] + encode_field(r.description@) + seq![','] + encode_field(opt_chars(r.message)) + seq![',']
        + encode_field(r.amount@) + seq![','] + encode_field(dec_int(r.value_in_base_units as int))
        + seq![','] + encode_field(r.created_at@) + seq!['\n']
}

/// The header line of the file, naming each output field.
pub open spec fn header_chars() -> Seq<char> {
    "status,raw_text,description,message,amount,value_in_base_units,created_at\n"@
}

/// The data lines of the file: one encoded row per output row, in order.
pub open spec fn rows_text(rows: Seq<TransactionCSV>) -> Seq<char>
    decreases rows.len(),
{
    if rows.len() == 0 {
        Seq::empty()
    } else {
        encode_row(rows[0]) + rows_text(rows.skip(1))
    }
}

/// Law: the data lines of a concatenation are the lines of the parts.
pub proof fn lemma_rows_text_add(a: Seq<TransactionCSV>, b: Seq<TransactionCSV>)
    ensures
        rows_text(a + b) == rows_text(a) + rows_text(b),
    decreases a.len(),
{
    if a.len() == 0 {
        assert(a + b =~= b);
        assert(rows_text(a) + rows_text(b) =~= rows_text(b));
    } else {
        assert((a + b).skip(1) =~= a.skip(1) + b);
        lemma_rows_text_add(a.skip(1), b);
        assert(encode_row(a[0]) + (rows_text(a.skip(1)) + rows_text(b)) =~= (encode_row(a[0])
            + rows_text(a.skip(1))) + rows_text(b));
    }
}

/// The whole file text: the header line, then the data lines.
pub open spec fn csv_text(rows: Seq<TransactionCSV>) -> Seq<char> {
    header_chars() + rows_text(rows)
}

/// How a CSV reader reads one unquoted field: the characters up to the
/// first comma or line feed, and what follows that terminator.
pub open spec fn parse_unquoted(s: Seq<char>) -> (Seq<char>, Seq<char>)
    decreases s.len(),
{
    if s.len() == 0 {
        (Seq::empty(), Seq::empty())
    } else if s[0] == ',' || s[0] == '\n' {
        (Seq::empty(), s.skip(1))
    } else {
        (seq![s[0]] + parse_unquoted(s.skip(1)).0, parse_unquoted(s.skip(1)).1)
    }
}

/// How a CSV reader reads the body of a quoted field, after the opening
/// quote: doubled quotes collapse, a lone quote closes the field; yields
/// the field's characters and what follows the closing quote.
pub open spec fn parse_quoted(s: Seq<char>) -> (Seq<char>, Seq<char>)
    decreases s.len(),
{
    if s.len() == 0 {
        (Seq::empty(), Seq::empty())
    } else if s[0] == '"' {
        if s.len() >= 2 && s[1] == '"' {
            (seq!['"'] + parse_quoted(s.skip(2)).0, parse_quoted(s.skip(2)).1)
        } else {
            (Seq::empty(), s.skip(1))
        }
    } else {
        (seq![s[0]] + parse_quoted(s.skip(1)).0, parse_quoted(s.skip(1)).1)
    }
}

/// How a CSV reader reads one field: quoted when it opens with a quote,
/// unquoted otherwise; the terminator after the field is consumed.
pub open spec fn parse_one(s: Seq<char>) -> (Seq<char>, Seq<char>) {
    if s.len() > 0 && s[0] == '"' {
        let body = parse_quoted(s.skip(1));
        (
            body.0,
            if body.1.len() > 0 && (body.1[0] == ',' || body.1[0] == '\n') {
                body.1.skip(1)
            } else {
                body.1
            },
        )
    } else {
        parse_unquoted(s)
    }
}

/// Law: an unquoted field reads back as itself up to its terminator.
pub proof fn lemma_parse_unquoted(f: Seq<char>, sep: char, rest: Seq<char>)
    requires
        !needs_quoting(f),
        sep == ',' || sep == '\n',
    ensures
        parse_unquoted(f + seq![sep] + rest) == (f, rest),
    decreases f.len(),
{
    let s = f + seq![sep] + rest;
    if f.len() == 0 {
        assert(s =~= seq![sep] + rest);
        assert(s[0] == sep);
        assert(s.skip(1) =~= rest);
    } else {
        assert(s[0] == f[0]);
        assert(!is_special_char(f[0]));
        assert forall|j: int| 0 <= j < f.skip(1).len() implies !is_special_char(
            #[trigger] f.skip(1)[j],
        ) by {
            assert(f.skip(1)[j] == f[j + 1]);
        }
        assert(s.skip(1) =~= f.skip(1) + seq![sep] + rest);
        lemma_parse_unquoted(f.skip(1), sep, rest);
        assert(seq![f[0]] + f.skip(1) =~= f);
    }
}

/// Law: an escaped quoted body reads back as the original field, leaving
/// what follows the closing quote, as long as that does not itself open
/// with a quote.
pub proof fn lemma_parse_quoted(f: Seq<char>, rest: Seq<char>)
    requires
        rest.len() > 0 ==> rest[0] != '"',
    ensures
        parse_quoted(escape_quotes(f) + seq!['"'] + rest) == (f, rest),
    decreases f.len(),
{
    let s = escape_quotes(f) + seq!['"'] + rest;
    if f.len() == 0 {
        assert(s =~= seq!['"'] + rest);
        assert(s[0] == '"');
        assert(s.len() >= 2 ==> s[1] == rest[0]);
        assert(s.skip(1) =~= rest);
    } else {
        lemma_parse_quoted(f.skip(1), rest);
        if f[0] == '"' {
            assert(escape_quotes(f) == seq!['"', '"'] + escape_quotes(f.skip(1)));
            assert(s[0] == '"' && s[1] == '"');
            assert(s.skip(2) =~= escape_quotes(f.skip(1)) + seq!['"'] + rest);
            assert(seq!['"'] + f.skip(1) =~= f);
        } else {
            assert(escape_quotes(f) == seq![f[0]] + escape_quotes(f.skip(1)));
            assert(s[0] == f[0]);
            assert(s.skip(1) =~= escape_quotes(f.skip(1)) + seq!['"'] + rest);
            assert(seq![f[0]] + f.skip(1) =~= f);
        }
    }
}

/// Law (round trip, one field): an encoded field followed by its
/// terminator reads back as exactly the original characters, whether or
/// not the encoding quoted it.
pub proof fn lemma_parse_encoded_field(f: Seq<char>, sep: char, rest: Seq<char>)
    requires
        sep == ',' || sep == '\n',
    ensures
        parse_one(encode_field(f) + seq![sep] + rest) == (f, rest),
{
    let s = encode_field(f) + seq![sep] + rest;
    if needs_quoting(f) {
        assert(s[0] == '"');
        assert(s.skip(1) =~= escape_quotes(f) + seq!['"'] + (seq![sep] + rest));
        lemma_parse_quoted(f, seq![sep] + rest);
        assert((seq![sep] + rest)[0] == sep);
        assert((seq![sep] + rest).skip(1) =~= rest);
    } else {
        if f.len() > 0 && f[0] == '"' {
            assert(is_special_char(f[0]));
            assert(false);
        }
        if f.len() == 0 {
            assert(s[0] == sep);
        } else {
            assert(s[0] == f[0]);
        }
        lemma_parse_unquoted(f, sep, rest);
    }
}

/// The seven field strings of one output row, in file order.
pub open spec fn row_fields(r: TransactionCSV) -> Seq<Seq<char>> {
    seq![
        status_chars(r.status),
        opt_chars(r.raw_text),
        r.description@,
        opt_chars(r.message),
        r.amount@,
        dec_int(r.value_in_base_units as int),
        r.created_at@,
    ]
}

/// How a CSV reader reads one record of seven fields: the fields in
/// order, and what follows the record's terminating line feed.
pub open spec fn parse_record(s: Seq<char>) -> (Seq<Seq<char>>, Seq<char>) {
    let p1 = parse_one(s);
    let p2 = parse_one(p1.1);
    let p3 = parse_one(p2.1);
    let p4 = parse_one(p3.1);
    let p5 = parse_one(p4.1);
    let p6 = parse_one(p5.1);
    let p7 = parse_one(p6.1);
    (seq![p1.0, p2.0, p3.0, p4.0, p5.0, p6.0, p7.0], p7.1)
}

/// Law (round trip, one row): an encoded row reads back as exactly the
/// row's seven field strings, leaving exactly what follows the row.
#[verifier::rlimit(50)]
pub proof fn lemma_parse_encoded_row(r: TransactionCSV, rest: Seq<char>)
    ensures
        parse_record(encode_row(r) + rest) == (row_fields(r), rest),
{
    let f1 = status_chars(r.status);
    let f2 = opt_chars(r.raw_text);
    let f3 = r.description@;
    let f4 = opt_chars(r.message);
    let f5 = r.amount@;
    let f6 = dec_int(r.value_in_base_units as int);
    let f7 = r.created_at@;
    let t7 = rest;
    let t6 = encode_field(f7) + seq!['\n'] + t7;
    let t5 = encode_field(f6) + seq![','] + t6;
    let t4 = encode_field(f5) + seq![','] + t5;
    let t3 = encode_field(f4) + seq![','] + t4;
    let t2 = encode_field(f3) + seq![','] + t3;
    let t1 = encode_field(f2) + seq![','] + t2;
    assert(encode_row(r) + rest =~= encode_field(f1) + seq![','] + t1);
    lemma_parse_encoded_field(f1, ',', t1);
    lemma_parse_encoded_field(f2, ',', t2);
    lemma_parse_encoded_field(f3, ',', t3);
    lemma_parse_encoded_field(f4, ',', t4);
    lemma_parse_encoded_field(f5, ',', t5);
    lemma_parse_encoded_field(f6, ',', t6);
    lemma_parse_encoded_field(f7, '\n', t7);
    assert(parse_record(encode_row(r) + rest).0 =~= row_fields(r));
}

/// How a CSV reader reads a given number of records, one after another.
pub open spec fn parse_records(s: Seq<char>, n: nat) -> (Seq<Seq<Seq<char>>>, Seq<char>)
    decreases n,
{
    if n == 0 {
        (Seq::empty(), s)
    } else {
        let first = parse_record(s);
        let more = parse_records(first.1, (n - 1) as nat);
        (seq![first.0] + more.0, more.1)
    }
}

/// Law (round trip, the data lines): the rendered data lines read back as
/// exactly the rows' field strings, row by row in order, with nothing
/// left over.
pub proof fn lemma_parse_rows_text(rows: Seq<TransactionCSV>)
    ensures
        parse_records(rows_text(rows), rows.len()) == (
            rows.map_values(|r: TransactionCSV| row_fields(r)),
            Seq::<char>::empty(),
        ),
    decreases rows.len(),
{
    let fields = rows.map_values(|r: TransactionCSV| row_fields(r));
    if rows.len() == 0 {
        assert(fields =~= Seq::<Seq<Seq<char>>>::empty());
        assert(parse_records(rows_text(rows), 0).0 =~= Seq::<Seq<Seq<char>>>::empty());
    } else {
        lemma_parse_encoded_row(rows[0], rows_text(rows.skip(1)));
        lemma_parse_rows_text(rows.skip(1));
        assert(fields =~= seq![row_fields(rows[0])] + rows.skip(1).map_values(
            |r: TransactionCSV| row_fields(r),
        ));
        assert(parse_records(rows_text(rows), rows.len()).0 =~= fields);
    }
}

/// The seven field names of the header line.
pub open spec fn header_fields() -> Seq<Seq<char>> {
    seq![
        "status"@,
        "raw_text"@,
        "description"@,
        "message"@,
        "amount"@,
        "value_in_base_units"@,
        "created_at"@,
    ]
}

/// Law: the header line reads back as exactly the seven field names,
/// leaving exactly what follows the line.
#[verifier::rlimit(80)]
pub proof fn lemma_parse_header(rest: Seq<char>)
    ensures
        parse_record(header_chars() + rest) == (header_fields(), rest),
{
    reveal_strlit("status,raw_text,description,message,amount,value_in_base_units,created_at\n");
    reveal_strlit("status");
    reveal_strlit("raw_text");
    reveal_strlit("description");
    reveal_strlit("message");
    reveal_strlit("amount");
    reveal_strlit("value_in_base_units");
    reveal_strlit("created_at");
    let f1 = "status"@;
    let f2 = "raw_text"@;
    let f3 = "description"@;
    let f4 = "message"@;
    let f5 = "amount"@;
    let f6 = "value_in_base_units"@;
    let f7 = "created_at"@;
    assert(!needs_quoting(f1));
    assert(!needs_quoting(f2));
    assert(!needs_quoting(f3));
    assert(!needs_quoting(f4));
    assert(!needs_quoting(f5));
    assert(!needs_quoting(f6));
    assert(!needs_quoting(f7));
    let t7 = rest;
    let t6 = encode_field(f7) + seq!['\n'] + t7;
    let t5 = encode_field(f6) + seq![','] + t6;
    let t4 = encode_field(f5) + seq![','] + t5;
    let t3 = encode_field(f4) + seq![','] + t4;
    let t2 = encode_field(f3) + seq![','] + t3;
    let t1 = encode_field(f2) + seq![','] + t2;
    assert(header_chars() + rest =~= encode_field(f1) + seq![','] + t1);
    lemma_parse_encoded_field(f1, ',', t1);
    lemma_parse_encoded_field(f2, ',', t2);
    lemma_parse_encoded_field(f3, ',', t3);
    lemma_parse_encoded_field(f4, ',', t4);
    lemma_parse_encoded_field(f5, ',', t5);
    lemma_parse_encoded_field(f6, ',', t6);
    lemma_parse_encoded_field(f7, '\n', t7);
    assert(parse_record(header_chars() + rest).0 =~= header_fields());
}

/// Law (round trip, the whole file): the rendered file reads back as the
/// header names followed by the rows' field strings, row by row in
/// order, with nothing left over.
pub proof fn lemma_parse_csv_text(rows: Seq<TransactionCSV>)
    ensures
        parse_records(csv_text(rows), rows.len() + 1) == (
            seq![header_fields()] + rows.map_values(|r: TransactionCSV| row_fields(r)),
            Seq::<char>::empty(),
        ),
{
    lemma_parse_header(rows_text(rows));
    lemma_parse_rows_text(rows);
    assert(parse_records(csv_text(rows), rows.len() + 1).0 =~= seq![header_fields()]
        + rows.map_values(|r: TransactionCSV| row_fields(r)));
}

/// The characters of a string, as a vector.
#[verifier::loop_isolation(false)]
fn chars_of(s: &str) -> (r: Vec<char>)
    ensures
        r@ == s@,
{
    let n = s.unicode_len();
    let mut r: Vec<char> = Vec::new();
    let mut i: usize = 0;
    while i < n
        invariant
            i <= n,
            r@ == s@.take(i as int),
        decreases n - i,
    {
        let c = s.get_char(i);
        r.push(c);
        proof {
            assert(s@.take(i as int).push(s@[i as int]) =~= s@.take(i as int + 1));
        }
        i = i + 1;
    }
    proof {
        assert(s@.take(n as int) =~= s@);
    }
    r
}

/// Relies on `String: FromIterator<char>`: collecting characters yields
/// the string of exactly those characters in order.
#[verifier::external_body]
fn string_from_chars(chars: &Vec<char>) -> (r: String)
    ensures
        r@ == chars@,
{
    chars.iter().collect()
}

/// Whether the field must be quoted.
#[verifier::loop_isolation(false)]
fn field_needs_quoting(field: &Vec<char>) -> (r: bool)
    ensures
        r == needs_quoting(field@),
{
    let mut i: usize = 0;
    while i < field.len()
        invariant
            i <= field@.len(),
            forall|j: int| 0 <= j < i ==> !is_special_char(#[trigger] field@[j]),
        decreases field@.len() - i,
    {
        let c = field[i];
        if c == ',' || c == '"' || c == '\n' || c == '\r' {
            return true;
        }
        i = i + 1;
    }
    false
}

/// Appends one encoded field to the output.
#[verifier::loop_isolation(false)]
fn push_field(out: &mut Vec<char>, field: &Vec<char>)
    ensures
        final(out)@ == old(out)@ + encode_field(field@),
{
    if field_needs_quoting(field) {
        out.push('"');
        let mut i: usize = 0;
        while i < field.len()
            invariant
                i <= field@.len(),
                out@ == old(out)@ + seq!['"'] + escape_quotes(field@.take(i as int)),
            decreases field@.len() - i,
        {
            let c = field[i];
            if c == '"' {
                out.push('"');
                out.push('"');
            } else {
                out.push(c);
            }
            proof {
                let prefix = field@.take(i as int);
                let unit = seq![field@[i as int]];
                assert(prefix + unit =~= field@.take(i as int + 1));
                lemma_escape_quotes_add(prefix, unit);
                assert(unit.skip(1) =~= Seq::<char>::empty());
                assert(escape_quotes(Seq::<char>::empty()) == Seq::<char>::empty());
                if field@[i as int] == '"' {
                    assert(escape_quotes(unit) =~= seq!['"', '"']);
                } else {
                    assert(escape_quotes(unit) =~= unit);
                }
                assert(out@ =~= old(out)@ + seq!['"'] + escape_quotes(field@.take(i as int + 1)));
            }
            i = i + 1;
        }
        out.push('"');
        proof {
            assert(field@.take(field@.len() as int) =~= field@);
            assert(out@ =~= old(out)@ + encode_field(field@));
        }
    } else {
        let mut i: usize = 0;
        while i < field.len()
            invariant
                i <= field@.len(),
                out@ == old(out)@ + field@.take(i as int),
            decreases field@.len() - i,
        {
            let c = field[i];
            out.push(c);
            proof {
                assert((old(out)@ + field@.take(i as int)).push(field@[i as int]) =~= old(out)@
                    + field@.take(i as int + 1));
            }
            i = i + 1;
        }
        proof {
            assert(field@.take(field@.len() as int) =~= field@);
        }
    }
}

/// Appends one encoded optional field to the output.
fn push_opt_field(out: &mut Vec<char>, field: &Option<String>)
    ensures
        final(out)@ == old(out)@ + encode_field(opt_chars(*field)),
{
    match field {
        Option::Some(s) => {
            let v = chars_of(s.as_str());
            push_field(out, &v);
        },
        Option::None => {
            let v: Vec<char> = Vec::new();
            push_field(out, &v);
            proof {
                assert(encode_field(Seq::<char>::empty()) =~= Seq::<char>::empty());
            }
        },
    }
}

/// The rendered status.
fn status_str(s: TransactionStatusEnum) -> (r: &'static str)
    ensures
        r@ == status_chars(s),
{
    match s {
        TransactionStatusEnum::HELD => "HELD",
        TransactionStatusEnum::SETTLED => "SETTLED",
    }
}

/// The decimal rendering of a signed minor-unit amount.
fn i64_chars(v: i64) -> (r: Vec<char>)
    ensures
        r@ == dec_int(v as int),
{
    let mut out: Vec<char> = Vec::new();
    if v < 0 {
        out.push('-');
    }
    let wide: i128 = v as i128;
    let mag: u64 = if wide < 0 {
        (-wide) as u64
    } else {
        wide as u64
    };
    let mut digits: Vec<char> = Vec::new();
    let mut x: u64 = mag;
    loop
        invariant_except_break
            digits@.len() > 0 ==> x > 0,
        invariant
            out@ == (if v < 0 {
                seq!['-']
            } else {
                Seq::<char>::empty()
            }),
            mag as int == (if v < 0 {
                -(v as int)
            } else {
                v as int
            }),
            digits@.len() == 0 ==> x == mag,
            digits@.len() > 0 ==> dec_digits(mag as nat) == (if x > 0 {
                dec_digits(x as nat)
            } else {
                Seq::<char>::empty()
            }) + digits@,
        ensures
            x == 0,
            digits@.len() > 0,
        decreases x, (if digits@.len() == 0 { 1int } else { 0int }),
    {
        let ghost x0 = x;
        let ghost digits0 = digits@;
        let d: u8 = (x % 10) as u8;
        let ch: char = (48 + d) as char;
        digits.insert(0, ch);
        x = x / 10;
        proof {
            assert(digits@ =~= seq![ch] + digits0);
            assert(ch == digit_char((x0 % 10) as int));
            if x0 >= 10 {
                assert(dec_digits(x0 as nat) == dec_digits((x0 as nat) / 10) + seq![ch]);
                assert((x0 / 10) as nat == (x0 as nat) / 10);
                assert(dec_digits(mag as nat) =~= dec_digits(x as nat) + digits@);
            } else {
                assert(dec_digits(x0 as nat) =~= seq![ch]);
                assert(dec_digits(mag as nat) =~= Seq::<char>::empty() + digits@);
            }
        }
        if x == 0 {
            break;
        }
    }
    proof {
        assert(Seq::<char>::empty() + digits@ =~= digits@);
    }
    out.append(&mut digits);
    proof {
        if v < 0 {
            assert(mag as nat == (-(v as int)) as nat);
            assert(out@ =~= seq!['-'] + dec_digits(mag as nat));
        } else {
            assert(mag as nat == v as nat);
            assert(out@ =~= dec_digits(mag as nat));
        }
    }
    out
}

/// Appends one encoded row to the output.
#[verifier::rlimit(50)]
fn push_row(out: &mut Vec<char>, row: &TransactionCSV)
    ensures
        final(out)@ == old(out)@ + encode_row(*row),
{
    let sv = chars_of(status_str(row.status));
    push_field(out, &sv);
    out.push(',');
    push_opt_field(out, &row.raw_text);
    out.push(',');
    let dv = chars_of(row.description.as_str());
    push_field(out, &dv);
    out.push(',');
    push_opt_field(out, &row.message);
    out.push(',');
    let av = chars_of(row.amount.as_str());
    push_field(out, &av);
    out.push(',');
    let nv = i64_chars(row.value_in_base_units);
    push_field(out, &nv);
    out.push(',');
    let cv = chars_of(row.created_at.as_str());
    push_field(out, &cv);
    out.push('\n');
    proof {
        assert(out@ =~= old(out)@ + encode_row(*row));
    }
}

/// Renders the output rows as the full CSV file text: the header line
/// naming each field, then one line per row, preserving the row order.
#[verifier::loop_isolation(false)]
pub fn to_csv_string(rows: &Vec<TransactionCSV>) -> (r: String)
    ensures
        r@ == csv_text(rows@),
{
    let mut out = chars_of("status,raw_text,description,message,amount,value_in_base_units,created_at\n");
    let mut i: usize = 0;
    while i < rows.len()
        invariant
            i <= rows@.len(),
            out@ == header_chars() + rows_text(rows@.take(i as int)),
        decreases rows@.len() - i,
    {
        push_row(&mut out, &rows[i]);
        proof {
            let prefix = rows@.take(i as int);
            let unit = seq![rows@[i as int]];
            assert(prefix + unit =~= rows@.take(i as int + 1));
            lemma_rows_text_add(prefix, unit);
            assert(unit.skip(1) =~= Seq::<TransactionCSV>::empty());
            assert(rows_text(Seq::<TransactionCSV>::empty()) == Seq::<char>::empty());
            assert(unit[0] == rows@[i as int]);
            assert(rows_text(unit) =~= encode_row(rows@[i as int]));
            assert(out@ =~= header_chars() + rows_text(rows@.take(i as int + 1)));
        }
        i = i + 1;
    }
    proof {
        assert(rows@.take(rows@.len() as int) =~= rows@);
    }
    string_from_chars(&out)
}

} // verus!
