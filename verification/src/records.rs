//! Shop rows read out of CSV data.
//!
//! The data has no header line; each record is `name,y_coordinate,x_coordinate`.
//! CSV syntax itself (quoting, line endings, UTF-8) is handled by the `csv`
//! crate; this module turns the records into shop rows and refuses a record
//! that lacks a field.

use vstd::prelude::*;

verus! {

/// The error type of the `csv` crate.
#[verifier::external_type_specification]
#[verifier::external_body]
pub struct ExCsvError(csv::Error);

/// The records that the `csv` crate reads out of `data` (no header line,
/// records of equal length), each record as the text of its fields; `None`
/// where it reports an error for the data.
pub uninterp spec fn csv_records(data: Seq<u8>) -> Option<Seq<Seq<Seq<char>>>>;

/// Reads every record of `data` with `csv::ReaderBuilder`, treating the first
/// line as a record (`has_headers(false)`), and collects the fields as strings.
///
/// Trusted: the result is `csv_records(data@)`, the records read from all of
/// `data`, that is, the same bytes always give the same records, or an error
/// where `csv_records` is `None`.
///
/// Trusted too, from the `csv-core` reader's documentation (`\r`, `\n` and
/// `\r\n` each end a record; empty lines are ignored) and its tests (`"a"`
/// and `"a\n"` read alike): where `data` holds no quote character, a final
/// record without a line terminator is a record like any other, so a
/// newline appended to `data` changes nothing that is read.
#[verifier::external_body]
fn csv_read_records(data: &[u8]) -> (res: Result<Vec<Vec<String>>, csv::Error>)
    ensures
        res is Ok <==> csv_records(data@) is Some,
        res matches Ok(records) ==> csv_records(data@) == Some(records.deep_view()),
        // 34 is the quote character `"`, 10 the newline.
        !data@.contains(34u8) ==> (res matches Ok(records) ==> csv_records(data@.push(10u8)) == Some(
            records.deep_view(),
        )),
        !data@.contains(34u8) ==> (res is Err ==> csv_records(data@.push(10u8)) is None),
{
    let mut reader = csv::ReaderBuilder::new().has_headers(false).from_reader(data);
    reader
        .records()
        .map(|r| r.map(|record| record.iter().map(|field| field.to_string()).collect()))
        .collect()
}


/// The three text fields of a shop row.
pub struct ShopFields {
    pub name: Seq<char>,
    pub y: Seq<char>,
    pub x: Seq<char>,
}

/// A shop as it stands in the data: its name and the text of its two
/// coordinates, not yet read as numbers.
#[derive(Debug)]
pub struct ShopRow {
    /// The first field of the record.
    pub name: String,
    /// The second field: the y coordinate (latitude).
    pub y: String,
    /// The third field: the x coordinate (longitude).
    pub x: String,
}

impl View for ShopRow {
    type V = ShopFields;

    open spec fn view(&self) -> ShopFields {
        ShopFields { name: self.name@, y: self.y@, x: self.x@ }
    }
}

impl DeepView for ShopRow {
    type V = ShopFields;

    open spec fn deep_view(&self) -> ShopFields {
        self@
    }
}

/// A record is a complete shop entry when it has the three fields
/// `name,y_coordinate,x_coordinate`; further fields are not looked at.
pub open spec fn is_complete(fields: Seq<Seq<char>>) -> bool {
    fields.len() >= 3
}

/// Every record is a complete shop entry.
pub open spec fn all_complete(records: Seq<Seq<Seq<char>>>) -> bool {
    forall|i: int| 0 <= i < records.len() ==> is_complete(#[trigger] records[i])
}

/// Record `i` is the first one that lacks a field.
pub open spec fn is_first_incomplete(records: Seq<Seq<Seq<char>>>, i: int) -> bool {
    &&& 0 <= i < records.len()
    &&& !is_complete(records[i])
    &&& forall|j: int| 0 <= j < i ==> is_complete(#[trigger] records[j])
}

/// The shop row of a complete record: its first three fields.
pub open spec fn row_of_record(fields: Seq<Seq<char>>) -> ShopFields {
    ShopFields { name: fields[0], y: fields[1], x: fields[2] }
}

/// The shop rows of a sequence of complete records, one per record, in order.
pub open spec fn rows_of_records(records: Seq<Seq<Seq<char>>>) -> Seq<ShopFields> {
    records.map_values(|fields: Seq<Seq<char>>| row_of_record(fields))
}

/// Why shop rows could not be read.
#[derive(Debug)]
pub enum ShopDataError {
    /// The `csv` crate refused the data.
    MalformedCsv(csv::Error),
    /// A record (counted from 0) has fewer than three fields: `found` of them.
    MissingField { record: usize, found: usize },
}

/// Turns records into shop rows, one per record, in order. Fails at the
/// first record with fewer than three fields, naming it.
pub fn rows_from_records(records: &Vec<Vec<String>>) -> (res: Result<Vec<ShopRow>, ShopDataError>)
    ensures
        res is Ok <==> all_complete(records.deep_view()),
        res matches Ok(rows) ==> rows.deep_view() == rows_of_records(records.deep_view()),
        res is Err ==> (res matches Err(ShopDataError::MissingField { record, found }) && is_first_incomplete(
            records.deep_view(),
            record as int,
        ) && found == records[record as int].len()),
{
    let mut rows: Vec<ShopRow> = Vec::new();
    let n = records.len();
    let ghost recs = records.deep_view();
    for i in 0..n
        invariant
            n == records.len(),
            recs == records.deep_view(),
            forall|j: int| 0 <= j < i ==> is_complete(#[trigger] recs[j]),
            rows.deep_view() == rows_of_records(recs.take(i as int)),
    {
        let record = &records[i];
        proof {
            assert(recs[i as int] == record.deep_view());
        }
        if record.len() < 3 {
            return Err(ShopDataError::MissingField { record: i, found: record.len() });
        }
        let row = ShopRow { name: record[0].clone(), y: record[1].clone(), x: record[2].clone() };
        let ghost before = rows.deep_view();
        rows.push(row);
        proof {
            assert(rows.deep_view() =~= before.push(row@));
            assert(rows_of_records(recs.take(i + 1)) =~= rows_of_records(recs.take(i as int)).push(
                row_of_record(recs[i as int]),
            ));
        }
    }
    proof {
        assert(recs.take(n as int) =~= recs);
    }
    Ok(rows)
}

/// Reads the shop rows out of CSV data.
///
/// Fails where the `csv` crate refuses the data, and where a record lacks a
/// field; otherwise every record gives a row, in order.
pub fn read_shop_rows(data: &[u8]) -> (res: Result<Vec<ShopRow>, ShopDataError>)
    ensures
        csv_records(data@) is None ==> res matches Err(ShopDataError::MalformedCsv(_)),
        csv_records(data@) matches Some(recs) ==> {
            &&& res is Ok <==> all_complete(recs)
            &&& res matches Ok(rows) ==> rows.deep_view() == rows_of_records(recs)
            &&& res is Err ==> (res matches Err(ShopDataError::MissingField { record, found })
                && is_first_incomplete(recs, record as int) && found == recs[record as int].len())
        },
        // A last line without a newline is read as if it had one (34 is `"`, 10 is `\n`).
        !data@.contains(34u8) ==> csv_records(data@.push(10u8)) == csv_records(data@),
{
    match csv_read_records(data) {
        Ok(records) => rows_from_records(&records),
        Err(e) => Err(ShopDataError::MalformedCsv(e)),
    }
}

} // verus!
