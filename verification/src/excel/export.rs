//! CSV export of a sheet's cells, written with the `csv` crate.

use vstd::prelude::*;
use vstd::utf8::encode_utf8;

use crate::excel::error::AppError;
use crate::excel::reader::{grid_view, ConvertData, ReadData};
use crate::text::{decimal, push_decimal, push_str};

verus! {

/// A field needs quotes when it holds a comma, a quote, CR or LF.
pub open spec fn csv_needs_quotes(f: Seq<char>) -> bool {
    f.contains(',') || f.contains('"') || f.contains('\r') || f.contains('\n')
}

/// The field with every quote doubled.
pub open spec fn csv_doubled(f: Seq<char>) -> Seq<char>
    decreases f.len(),
{
    if f.len() == 0 {
        Seq::empty()
    } else {
        csv_doubled(f.drop_last()) + if f.last() == '"' {
            seq!['"', '"']
        } else {
            seq![f.last()]
        }
    }
}

/// A field as written: in quotes, quotes doubled, where it needs them.
pub open spec fn csv_field(f: Seq<char>) -> Seq<char> {
    if csv_needs_quotes(f) {
        seq!['"'] + csv_doubled(f) + seq!['"']
    } else {
        f
    }
}

/// The fields of a record, written and joined by commas.
pub open spec fn csv_joined(fields: Seq<Seq<char>>) -> Seq<char>
    decreases fields.len(),
{
    if fields.len() == 0 {
        Seq::empty()
    } else if fields.len() == 1 {
        csv_field(fields[0])
    } else {
        csv_joined(fields.drop_last()) + seq![','] + csv_field(fields.last())
    }
}

/// A record and its `\n`; a record that would write nothing (no field, or
/// one empty field) is written as `""`.
pub open spec fn csv_line(fields: Seq<Seq<char>>) -> Seq<char> {
    if csv_joined(fields).len() == 0 {
        seq!['"', '"', '\n']
    } else {
        csv_joined(fields) + seq!['\n']
    }
}

/// The records one after another.
pub open spec fn csv_text(rows: Seq<Seq<Seq<char>>>) -> Seq<char>
    decreases rows.len(),
{
    if rows.len() == 0 {
        Seq::empty()
    } else {
        csv_text(rows.drop_last()) + csv_line(rows.last())
    }
}

/// The first record from `k` on with another number of fields than the
/// first record (the number of records when there is none).
pub open spec fn first_uneven(rows: Seq<Seq<Seq<char>>>, k: int) -> int
    decreases rows.len() - k,
{
    if k < 0 || k >= rows.len() {
        rows.len() as int
    } else if rows[k].len() != rows[0].len() {
        k
    } else {
        first_uneven(rows, k + 1)
    }
}

/// Every record has as many fields as the first.
pub open spec fn csv_even(rows: Seq<Seq<Seq<char>>>) -> bool {
    first_uneven(rows, 0) == rows.len()
}

/// What the csv crate says of the first record with another number of
/// fields.
pub open spec fn unequal_message(rows: Seq<Seq<Seq<char>>>) -> Seq<char> {
    "CSV error: found record with "@ + decimal(rows[first_uneven(rows, 0)].len()) + " fields, but the previous record has "@
        + decimal(rows[0].len()) + " fields"@
}

/// Writes the rows as CSV records into memory with `csv::WriterBuilder`'s
/// defaults (comma, `\n`, quotes where necessary, every record as long as
/// the first), then `into_inner`. Writing into memory fails only on a
/// record of another length, with the crate's message for it.
#[verifier::external_body]
fn write_csv(rows: &Vec<Vec<String>>) -> (r: Result<Vec<u8>, String>)
    ensures
        r is Ok <==> csv_even(grid_view(rows@)),
        r matches Ok(b) ==> b@ == encode_utf8(csv_text(grid_view(rows@))),
        r matches Err(m) ==> m@ == unequal_message(grid_view(rows@)),
{
    let mut wtr = csv::WriterBuilder::new().from_writer(Vec::new());
    for row in rows.iter() {
        wtr.write_record(row).map_err(|e| e.to_string())?;
    }
    wtr.into_inner().map_err(|e| e.to_string())
}

/// The bytes of a CSV export: the UTF-8 byte order mark, then the records.
pub open spec fn csv_file_bytes(rows: Seq<Seq<Seq<char>>>) -> Seq<u8> {
    seq![0xEFu8, 0xBBu8, 0xBFu8] + encode_utf8(csv_text(rows))
}

/// Exports the cells read from a sheet as UTF-8 CSV with a byte order
/// mark: the report and the bytes for `output_path`.
pub fn export_to_csv(file_path: &str, output_path: &str, read: ReadData) -> (r: Result<(ConvertData, Vec<u8>), AppError>)
    ensures
        match r {
            Ok((c, b)) => {
                &&& csv_even(grid_view(read.rows@))
                &&& b@ == csv_file_bytes(grid_view(read.rows@))
                &&& c.input_file@ == file_path@
                &&& c.output_file@ == output_path@
                &&& c.exported_sheet == read.sheet
                &&& c.total_rows == read.total_rows
            },
            Err(e) => {
                &&& !csv_even(grid_view(read.rows@))
                &&& e matches AppError::General(m) && m@ == "CSV 写入错误: "@ + unequal_message(grid_view(read.rows@))
            },
        },
{
    match write_csv(&read.rows) {
        Ok(body) => {
            let mut out: Vec<u8> = vec![0xEFu8, 0xBBu8, 0xBFu8];
            let mut i: usize = 0;
            while i < body.len()
                invariant
                    i <= body.len(),
                    out@ == seq![0xEFu8, 0xBBu8, 0xBFu8] + body@.take(i as int),
                decreases body.len() - i,
            {
                out.push(body[i]);
                assert(body@.take(i + 1) == body@.take(i as int).push(body@[i as int]));
                i += 1;
            }
            assert(body@.take(body.len() as int) == body@);
            let c = ConvertData {
                input_file: file_path.to_owned(),
                output_file: output_path.to_owned(),
                exported_sheet: read.sheet,
                total_rows: read.total_rows,
            };
            Ok((c, out))
        },
        Err(m) => {
            let mut msg = "CSV 写入错误: ".to_owned();
            push_str(&mut msg, m.as_str());
            Err(AppError::General(msg))
        },
    }
}

} // verus!
