//! Reading and writing a day's entries in their stored row form.
//!
//! Each stored row carries description, start time as `HH:MM`, context and a
//! task-type token. Turning rows into entries and back is verified here; the
//! record-oriented byte format itself is the `csv` crate's, reached through
//! trusted wrappers.

use vstd::prelude::*;
use vstd::string::StringExecFns;
use crate::entry::{Entry, TaskType, times_valid, valid_ledger};
use crate::sort::{sort_entries, sort_spec};
use crate::time::{spec_parse_time, SimpleTime};

verus! {

/// Error from decoding or encoding the stored rows.
#[derive(Clone, Copy, Debug, PartialEq, Eq, Structural)]
pub enum StoreError {
    /// A stored row could not be read or decoded; `row` is its index.
    DecodeError { row: usize },
    /// The rows could not be encoded.
    EncodeError,
}

/// What the record reader yields on the given bytes: the rows of string
/// fields, or the index of the record at which reading fails.
pub uninterp spec fn csv_parse_of(data: Seq<u8>) -> Result<Seq<Seq<Seq<char>>>, int>;

/// Relies on csv::ReaderBuilder and csv::Reader: reading records of string
/// fields from a byte slice, without a header row; the outcome depends on
/// the bytes alone.
#[verifier::external_body]
fn csv_parse(data: &Vec<u8>) -> (r: Result<Vec<Vec<String>>, usize>)
    ensures
        match r {
            Ok(rows) => csv_parse_of(data@) == Ok::<Seq<Seq<Seq<char>>>, int>(rows.deep_view()),
            Err(i) => csv_parse_of(data@) == Err::<Seq<Seq<Seq<char>>>, int>(i as int),
        },
{
    let rdr = csv::ReaderBuilder::new().has_headers(false).from_reader(data.as_slice());
    let mut rows: Vec<Vec<String>> = Vec::new();
    for rec in rdr.into_records() {
        match rec {
            Ok(record) => rows.push(record.iter().map(str::to_string).collect()),
            Err(_) => return Err(rows.len()),
        }
    }
    Ok(rows)
}

/// What the record writer produces from the given rows of string fields.
pub uninterp spec fn csv_encoding_of(rows: Seq<Seq<Seq<char>>>) -> Seq<u8>;

/// Relies on csv::Writer: encoding records of string fields into bytes; the
/// bytes depend on the rows alone. Records of four fields each always
/// encode: the writer rejects only a record whose length differs from the
/// first record's, and the in-memory sink it writes to cannot fail.
#[verifier::external_body]
fn csv_encode(rows: &Vec<Vec<String>>) -> (r: Option<Vec<u8>>)
    ensures
        (forall|i: int|
            0 <= i < rows.deep_view().len() ==> (#[trigger] rows.deep_view()[i]).len() == 4)
            ==> r is Some,
        match r {
            Some(b) => b@ == csv_encoding_of(rows.deep_view()),
            None => true,
        },
{
    let mut w = csv::Writer::from_writer(Vec::new());
    for row in rows {
        if w.write_record(row).is_err() {
            return None;
        }
    }
    match w.into_inner() {
        Ok(b) => Some(b),
        Err(_) => None,
    }
}

/// The token that encodes each entry kind.
pub open spec fn task_token(t: TaskType) -> Seq<char> {
    match t {
        TaskType::Regular => "Regular"@,
        TaskType::Stop => "Stop"@,
        TaskType::Minor => "Minor"@,
    }
}

/// What a task-type field means.
pub open spec fn spec_parse_task(s: Seq<char>) -> Option<TaskType> {
    if s == "Regular"@ {
        Some(TaskType::Regular)
    } else if s == "Stop"@ {
        Some(TaskType::Stop)
    } else if s == "Minor"@ {
        Some(TaskType::Minor)
    } else {
        None
    }
}

fn parse_task(s: &String) -> (r: Option<TaskType>)
    ensures
        r == spec_parse_task(s@),
{
    let regular = String::from_str("Regular");
    let stop = String::from_str("Stop");
    let minor = String::from_str("Minor");
    if *s == regular {
        Some(TaskType::Regular)
    } else if *s == stop {
        Some(TaskType::Stop)
    } else if *s == minor {
        Some(TaskType::Minor)
    } else {
        None
    }
}

fn task_token_str(t: TaskType) -> (r: String)
    ensures
        r@ == task_token(t),
{
    match t {
        TaskType::Regular => String::from_str("Regular"),
        TaskType::Stop => String::from_str("Stop"),
        TaskType::Minor => String::from_str("Minor"),
    }
}

/// The character for one decimal digit.
pub open spec fn digit_char(d: int) -> char {
    if d == 0 {
        '0'
    } else if d == 1 {
        '1'
    } else if d == 2 {
        '2'
    } else if d == 3 {
        '3'
    } else if d == 4 {
        '4'
    } else if d == 5 {
        '5'
    } else if d == 6 {
        '6'
    } else if d == 7 {
        '7'
    } else if d == 8 {
        '8'
    } else {
        '9'
    }
}

/// The zero-padded 24-hour `HH:MM` form of a time of day.
pub open spec fn spec_format_time(t: SimpleTime) -> Seq<char> {
    seq![
        digit_char(t.hours as int / 10),
        digit_char(t.hours as int % 10),
        ':',
        digit_char(t.minutes as int / 10),
        digit_char(t.minutes as int % 10),
    ]
}

fn digit_str(d: u32) -> (r: &'static str)
    requires
        d <= 9,
    ensures
        r@ == seq![digit_char(d as int)],
{
    proof {
        reveal_strlit("0");
        reveal_strlit("1");
        reveal_strlit("2");
        reveal_strlit("3");
        reveal_strlit("4");
        reveal_strlit("5");
        reveal_strlit("6");
        reveal_strlit("7");
        reveal_strlit("8");
        reveal_strlit("9");
    }
    let r = match d {
        0 => "0",
        1 => "1",
        2 => "2",
        3 => "3",
        4 => "4",
        5 => "5",
        6 => "6",
        7 => "7",
        8 => "8",
        _ => "9",
    };
    proof {
        assert(r@ =~= seq![digit_char(d as int)]);
    }
    r
}

/// Formats a time of day as zero-padded `HH:MM`.
pub fn format_time(t: &SimpleTime) -> (r: String)
    requires
        t.valid(),
    ensures
        r@ == spec_format_time(*t),
{
    let mut out = String::from_str(digit_str(t.hours / 10));
    out.append(digit_str(t.hours % 10));
    let colon = ":";
    proof {
        reveal_strlit(":");
        assert(colon@ =~= seq![':']);
    }
    out.append(colon);
    out.append(digit_str(t.minutes / 10));
    out.append(digit_str(t.minutes % 10));
    proof {
        assert(out@ =~= spec_format_time(*t));
    }
    out
}

/// Formatting a valid time of day and parsing the result gives the time
/// back.
pub proof fn lemma_format_parse_round_trip(t: SimpleTime)
    requires
        t.valid(),
    ensures
        spec_parse_time(spec_format_time(t)) == Some(t),
{
    let s = spec_format_time(t);
    assert(s.len() == 5);
    assert('0' as int == 48);
    assert(s[2] == ':');
    assert(crate::time::digit_val(s[0]) == t.hours / 10);
    assert(crate::time::digit_val(s[1]) == t.hours % 10);
    assert(crate::time::digit_val(s[3]) == t.minutes / 10);
    assert(crate::time::digit_val(s[4]) == t.minutes % 10);
    assert((t.hours / 10) * 10 + t.hours % 10 == t.hours);
    assert((t.minutes / 10) * 10 + t.minutes % 10 == t.minutes);
}

/// A row decodes to an entry: four fields, a well-formed time, a known kind.
pub open spec fn row_ok(row: Seq<Seq<char>>) -> bool {
    &&& row.len() == 4
    &&& spec_parse_time(row[1]) is Some
    &&& spec_parse_task(row[3]) is Some
}

/// Entry `e` is what the row decodes to.
pub open spec fn row_matches_entry(row: Seq<Seq<char>>, e: Entry) -> bool {
    &&& row.len() == 4
    &&& e.description@ == row[0]
    &&& Some(e.start_time) == spec_parse_time(row[1])
    &&& e.context@ == row[2]
    &&& Some(e.task_type) == spec_parse_task(row[3])
}

/// Each row decodes to the entry at its position.
pub open spec fn rows_match_entries(rows: Seq<Seq<Seq<char>>>, es: Seq<Entry>) -> bool {
    &&& es.len() == rows.len()
    &&& forall|j: int| 0 <= j < es.len() ==> row_matches_entry(rows[j], #[trigger] es[j])
}

/// The first row among the first `n` that does not decode, if any.
pub open spec fn first_bad_row(rows: Seq<Seq<Seq<char>>>, n: int) -> Option<int>
    decreases n,
{
    if n <= 0 {
        None
    } else {
        match first_bad_row(rows, n - 1) {
            Some(i) => Some(i),
            None => if row_ok(rows[n - 1]) {
                None
            } else {
                Some(n - 1)
            },
        }
    }
}

proof fn lemma_first_bad_row_persists(rows: Seq<Seq<Seq<char>>>, n: int, m: int)
    requires
        0 <= n <= m,
        first_bad_row(rows, n) is Some,
    ensures
        first_bad_row(rows, m) == first_bad_row(rows, n),
    decreases m - n,
{
    if n < m {
        lemma_first_bad_row_persists(rows, n, m - 1);
    }
}

fn decode_rows(rows: &Vec<Vec<String>>) -> (r: Result<Vec<Entry>, StoreError>)
    ensures
        match r {
            Ok(es) => first_bad_row(rows.deep_view(), rows.deep_view().len() as int) is None
                && rows_match_entries(rows.deep_view(), es@),
            Err(e) => e matches StoreError::DecodeError { row } && first_bad_row(
                rows.deep_view(),
                rows.deep_view().len() as int,
            ) == Some(row as int),
        },
{
    let ghost dv = rows.deep_view();
    let n = rows.len();
    let mut es: Vec<Entry> = Vec::new();
    let mut i: usize = 0;
    while i < n
        invariant
            i <= n,
            n == rows@.len(),
            dv == rows.deep_view(),
            dv.len() == n,
            first_bad_row(dv, i as int) is None,
            rows_match_entries(dv.take(i as int), es@),
        decreases n - i,
    {
        proof {
            assert(dv[i as int] == rows@[i as int].deep_view());
        }
        let row = &rows[i];
        if row.len() != 4 {
            proof {
                lemma_first_bad_row_persists(dv, i as int + 1, dv.len() as int);
            }
            return Err(StoreError::DecodeError { row: i });
        }
        proof {
            assert(dv[i as int][0] == row@[0]@);
            assert(dv[i as int][1] == row@[1]@);
            assert(dv[i as int][2] == row@[2]@);
            assert(dv[i as int][3] == row@[3]@);
        }
        let start_time = match SimpleTime::parse(row[1].as_str()) {
            Ok(t) => t,
            Err(_) => {
                proof {
                    lemma_first_bad_row_persists(dv, i as int + 1, dv.len() as int);
                }
                return Err(StoreError::DecodeError { row: i });
            },
        };
        let task_type = match parse_task(&row[3]) {
            Some(t) => t,
            None => {
                proof {
                    lemma_first_bad_row_persists(dv, i as int + 1, dv.len() as int);
                }
                return Err(StoreError::DecodeError { row: i });
            },
        };
        let e = Entry {
            description: row[0].clone(),
            start_time,
            context: row[2].clone(),
            task_type,
        };
        es.push(e);
        proof {
            assert(dv.take(i as int + 1).drop_last() =~= dv.take(i as int));
            assert(rows_match_entries(dv.take(i as int + 1), es@));
        }
        i = i + 1;
    }
    proof {
        assert(dv.take(n as int) =~= dv);
    }
    Ok(es)
}

/// Reads a day's stored bytes and returns its entries sorted ascending by
/// start time; empty content gives an empty ledger, a row that does not
/// decode gives the error naming it.
pub fn read_entries(data: &Vec<u8>) -> (r: Result<Vec<Entry>, StoreError>)
    ensures
        r is Ok <==> (csv_parse_of(data@) matches Ok(rows) && first_bad_row(
            rows,
            rows.len() as int,
        ) is None),
        match r {
            Ok(es) => {
                &&& valid_ledger(es@)
                &&& csv_parse_of(data@) matches Ok(rows) && exists|raw: Seq<Entry>|
                    #[trigger] rows_match_entries(rows, raw) && es@ == sort_spec(raw)
            },
            Err(e) => {
                &&& e matches StoreError::DecodeError { row }
                &&& match csv_parse_of(data@) {
                    Ok(rows) => first_bad_row(rows, rows.len() as int) == Some(row as int),
                    Err(i) => row as int == i,
                }
            },
        },
{
    let rows = match csv_parse(data) {
        Ok(rows) => rows,
        Err(i) => {
            return Err(StoreError::DecodeError { row: i });
        },
    };
    let mut es = match decode_rows(&rows) {
        Ok(es) => es,
        Err(e) => {
            return Err(e);
        },
    };
    proof {
        let dv = rows.deep_view();
        assert forall|j: int| 0 <= j < es@.len() implies (#[trigger] es@[j]).start_time.valid() by {
            assert(row_matches_entry(dv[j], es@[j]));
        }
        assert(times_valid(es@));
    }
    let ghost raw = es@;
    sort_entries(&mut es);
    proof {
        assert(rows_match_entries(rows.deep_view(), raw) && es@ == sort_spec(raw));
    }
    Ok(es)
}

/// Rows that encode one entry each, in the order given.
pub open spec fn row_of_entry(e: Entry) -> Seq<Seq<char>> {
    seq![e.description@, spec_format_time(e.start_time), e.context@, task_token(e.task_type)]
}

/// The stored form of a whole ledger.
pub open spec fn rows_of_entries(s: Seq<Entry>) -> Seq<Seq<Seq<char>>> {
    Seq::new(s.len(), |i: int| row_of_entry(s[i]))
}

/// Encodes the entries for storage, one row each in the order given,
/// overwriting any prior content when the caller stores the bytes. Encoding
/// a well-formed ledger always succeeds.
pub fn write_entries(data: &Vec<Entry>) -> (r: Result<Vec<u8>, StoreError>)
    requires
        times_valid(data@),
    ensures
        r matches Ok(b) && b@ == csv_encoding_of(rows_of_entries(data@)),
{
    let n = data.len();
    let mut rows: Vec<Vec<String>> = Vec::new();
    let mut i: usize = 0;
    while i < n
        invariant
            i <= n,
            n == data@.len(),
            times_valid(data@),
            rows@.len() == i,
            rows.deep_view() =~= rows_of_entries(data@).take(i as int),
        decreases n - i,
    {
        let e = &data[i];
        let mut row: Vec<String> = Vec::new();
        row.push(e.description.clone());
        row.push(format_time(&e.start_time));
        row.push(e.context.clone());
        row.push(task_token_str(e.task_type));
        rows.push(row);
        proof {
            assert(rows.deep_view()[i as int] =~= row_of_entry(data@[i as int]));
            assert(rows.deep_view() =~= rows_of_entries(data@).take(i as int + 1));
        }
        i = i + 1;
    }
    proof {
        assert(rows.deep_view() =~= rows_of_entries(data@));
        assert(rows.deep_view() == rows_of_entries(data@));
        assert forall|j: int|
            0 <= j < rows.deep_view().len() implies (#[trigger] rows.deep_view()[j]).len()
            == 4 by {
            assert(rows.deep_view()[j] == row_of_entry(data@[j]));
        }
    }
    match csv_encode(&rows) {
        Some(b) => Ok(b),
        None => Err(StoreError::EncodeError),
    }
}

} // verus!
