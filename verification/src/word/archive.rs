//! The zip container of a `.docx` file, read and written with the `zip`
//! crate.

use std::io::{Cursor, Read, Write};
use vstd::prelude::*;
use vstd::utf8::encode_utf8;
use zip::write::FileOptions;
use zip::{CompressionMethod, ZipArchive, ZipWriter};

verus! {

/// The step of reading or writing an archive at which the zip crate failed.
pub enum ZipStage {
    /// Reading the central directory, or finishing a written archive.
    Archive,
    /// Opening an entry, or starting one in a written archive.
    Entry,
    /// Reading or writing an entry's bytes.
    Content,
}

/// Entries as plain values: each name and its bytes.
pub open spec fn pairs_view(v: Seq<(String, Vec<u8>)>) -> Seq<(Seq<char>, Seq<u8>)> {
    v.map_values(|e: (String, Vec<u8>)| (e.0@, e.1@))
}

/// What the zip crate reads from the bytes of an archive: every entry in
/// the order of its central directory, each with its name and its
/// decompressed bytes; or the step that failed, the error's message and
/// whether an I/O error was of kind `NotFound`.
pub uninterp spec fn zip_read(bytes: Seq<u8>) -> Result<Seq<(Seq<char>, Seq<u8>)>, (ZipStage, Seq<char>, bool)>;

/// What the zip crate writes for the entries, in order, each deflated with
/// mode `0o644`: the archive's bytes; or the failed step, the name of the
/// entry it failed at (empty when finishing) and the error's message.
pub uninterp spec fn zip_written(entries: Seq<(Seq<char>, Seq<u8>)>) -> Result<Seq<u8>, (ZipStage, Seq<char>, Seq<char>)>;

/// The names fit the two-byte length field of a zip header.
pub open spec fn names_fit(entries: Seq<(Seq<char>, Seq<u8>)>) -> bool {
    forall|i: int| 0 <= i < entries.len() ==> encode_utf8((#[trigger] entries[i]).0).len() <= 0xFFFF
}

/// Reads an archive held in memory with `ZipArchive::new`, then each entry
/// with `by_index_decrypt` (an empty password, which the crate discards for
/// an entry that is not encrypted; a refused password is the entry's error)
/// and `read_to_end` (directories too). What the crate
/// reads is named, not restated: the entries are `zip_read` of the bytes.
#[verifier::external_body]
pub(crate) fn read_zip(bytes: &[u8]) -> (r: Result<Vec<(String, Vec<u8>)>, (ZipStage, String, bool)>)
    ensures
        r matches Ok(v) ==> zip_read(bytes@) is Ok && zip_read(bytes@)->Ok_0 == pairs_view(v@),
        r matches Err(f) ==> zip_read(bytes@) is Err && zip_read(bytes@)->Err_0 == (f.0, f.1@, f.2),
{
    let mut archive = ZipArchive::new(Cursor::new(bytes)).map_err(|e| (ZipStage::Archive, e.to_string(), false))?;
    let mut out = Vec::new();
    for i in 0..archive.len() {
        let opened = archive.by_index_decrypt(i, b"").map_err(|e| (ZipStage::Entry, e.to_string(), false))?;
        let mut file = opened.map_err(|e| (ZipStage::Entry, e.to_string(), false))?;
        let mut data = Vec::new();
        file.read_to_end(&mut data).map_err(|e| (ZipStage::Content, e.to_string(), e.kind() == std::io::ErrorKind::NotFound))?;
        out.push((file.name().to_string(), data));
    }
    Ok(out)
}

/// Writes the entries, in order, into an archive in memory with
/// `ZipWriter`: `start_file` (deflated, mode `0o644`), `write_all`, then
/// `finish`. The bytes are named (`zip_written`); the zip crate reads back
/// from them the same entries in the same order, as long as every name
/// fits its header field. Without the crate's `time` feature, which this
/// build leaves off, each entry's modification time is the crate's fixed
/// default, so the bytes depend on the entries alone.
#[verifier::external_body]
pub(crate) fn write_zip(entries: &Vec<(String, Vec<u8>)>) -> (r: Result<Vec<u8>, (ZipStage, String, String)>)
    ensures
        r matches Ok(b) ==> zip_written(pairs_view(entries@)) is Ok && zip_written(pairs_view(entries@))->Ok_0 == b@,
        r matches Ok(b) ==> names_fit(pairs_view(entries@)) ==> zip_read(b@) is Ok && zip_read(b@)->Ok_0 == pairs_view(entries@),
        r matches Err(f) ==> zip_written(pairs_view(entries@)) is Err && zip_written(pairs_view(entries@))->Err_0 == (f.0, f.1@, f.2@),
{
    let mut zip = ZipWriter::new(Cursor::new(Vec::new()));
    let options = FileOptions::default().compression_method(CompressionMethod::Deflated).unix_permissions(0o644);
    for (name, data) in entries.iter() {
        zip.start_file(name.as_str(), options).map_err(|e| (ZipStage::Entry, name.clone(), e.to_string()))?;
        zip.write_all(data).map_err(|e| (ZipStage::Content, name.clone(), e.to_string()))?;
    }
    let c = zip.finish().map_err(|e| (ZipStage::Archive, String::new(), e.to_string()))?;
    Ok(c.into_inner())
}

} // verus!
