//! The calls into the `csv` crate: reading a table (flexible rows, the
//! first row as headers) and writing one. What CSV quoting makes of a table
//! is named over its arguments.
use vstd::prelude::*;

use crate::models::strs;

verus! {

/// What reading a CSV text gives.
pub enum CsvRead {
    Table { headers: Vec<String>, records: Vec<Vec<String>> },
    HeaderError(String),
    RecordError { headers: Vec<String>, message: String },
}

pub ghost enum CsvReadView {
    Table { headers: Seq<Seq<char>>, records: Seq<Seq<Seq<char>>> },
    HeaderError(Seq<char>),
    RecordError { headers: Seq<Seq<char>>, message: Seq<char> },
}

pub open spec fn rows_view(v: Seq<Vec<String>>) -> Seq<Seq<Seq<char>>> {
    v.map_values(|r: Vec<String>| strs(r@))
}

pub open spec fn csv_read_view(r: CsvRead) -> CsvReadView {
    match r {
        CsvRead::Table { headers, records } => CsvReadView::Table {
            headers: strs(headers@),
            records: rows_view(records@),
        },
        CsvRead::HeaderError(m) => CsvReadView::HeaderError(m@),
        CsvRead::RecordError { headers, message } => CsvReadView::RecordError {
            headers: strs(headers@),
            message: message@,
        },
    }
}

/// What `csv::ReaderBuilder::new().flexible(true)` reading `content` gives:
/// the header row and the records, or the message of the first error (in
/// the header row; or in a record, with the header row).
pub uninterp spec fn csv_read(content: Seq<char>) -> CsvReadView;

/// What a `csv::Writer` with the default settings writes for `records`
/// (each through `write_record`, then the writer's buffer taken back): the
/// bytes, or the index of the record that failed (the number of records
/// when taking the buffer back failed) with the error's message.
pub uninterp spec fn csv_written(records: Seq<Seq<Seq<char>>>) -> Result<Seq<u8>, (nat, Seq<char>)>;

/// The UTF-8 byte order mark.
pub open spec fn bom() -> Seq<u8> {
    seq![0xEFu8, 0xBBu8, 0xBFu8]
}

/// The byte order mark, then `bytes`.
pub fn prefix_bom(bytes: &Vec<u8>) -> (res: Vec<u8>)
    ensures
        res@ == bom() + bytes@,
{
    let mut out: Vec<u8> = Vec::new();
    out.push(0xEF);
    out.push(0xBB);
    out.push(0xBF);
    let mut i: usize = 0;
    while i < bytes.len()
        invariant
            i <= bytes.len(),
            out@ == bom() + bytes@.take(i as int),
        decreases bytes.len() - i,
    {
        out.push(bytes[i]);
        assert(out@ =~= bom() + bytes@.take(i + 1));
        i = i + 1;
    }
    assert(bytes@.take(i as int) =~= bytes@);
    out
}

/// `csv::ReaderBuilder` (flexible), `Reader::headers` and `Reader::records`,
/// each field taken as a `String`; the contract names the result.
#[verifier::external_body]
pub(crate) fn read_csv_table(content: &str) -> (res: CsvRead)
    ensures
        csv_read_view(res) == csv_read(content@),
{
    let mut reader = csv::ReaderBuilder::new().flexible(true).from_reader(content.as_bytes());
    let headers: Vec<String> = match reader.headers() {
        Ok(h) => h.iter().map(|f| f.to_string()).collect(),
        Err(e) => return CsvRead::HeaderError(e.to_string()),
    };
    let mut records = Vec::new();
    for record in reader.records() {
        match record {
            Ok(r) => records.push(r.iter().map(|f| f.to_string()).collect()),
            Err(e) => return CsvRead::RecordError { headers, message: e.to_string() },
        }
    }
    CsvRead::Table { headers, records }
}

/// `csv::WriterBuilder::new().from_writer`, `Writer::write_record` for each
/// record and `Writer::into_inner`; the contract names the result.
#[verifier::external_body]
pub(crate) fn write_csv_records(records: &Vec<Vec<String>>) -> (res: Result<Vec<u8>, (usize, String)>)
    ensures
        match res {
            Ok(b) => csv_written(rows_view(records@)) == Ok::<Seq<u8>, (nat, Seq<char>)>(b@),
            Err((i, m)) => csv_written(rows_view(records@)) == Err::<Seq<u8>, (nat, Seq<char>)>(
                (i as nat, m@),
            ),
        },
{
    let mut writer = csv::WriterBuilder::new().from_writer(Vec::new());
    for (i, record) in records.iter().enumerate() {
        if let Err(e) = writer.write_record(record) {
            return Err((i, e.to_string()));
        }
    }
    writer.into_inner().map_err(|e| (records.len(), e.to_string()))
}

} // verus!
