use vstd::prelude::*;
use vstd::utf8::encode_utf8;

use crate::text::{
    chars_eq, decimal, join_spec, join_strings, push_chars, push_decimal, push_str, replace_chars,
    replace_spec, str_chars, string_from_chars, strings_view, trim, trim_chars,
};
use crate::unicode::{lowercase, to_lowercase};
use crate::word::error::WordCliError;
use crate::word::package::{document_part, escape_spec, escape_xml, part_text, DocxPackage};
use crate::word::xml::{is_tag, lemma_raw_concat_append, parsed_as, raw_concat, tag_is, tokenize, xml_events, XmlKind, XmlToken};

verus! {

/// The cells of one table, read in one of three forms: `json` carries the
/// rows in `data`, `markdown` and `csv` carry text in `content`.
pub struct TableDataResponse {
    pub status: String,
    pub table_index: usize,
    pub total_rows: usize,
    pub format: String,
    pub data: Option<Vec<Vec<String>>>,
    pub content: Option<String>,
}

/// The outcome of a table edit.
pub struct TableOpResponse {
    pub status: String,
    pub command: String,
    pub table_index: usize,
    pub file: String,
    pub message: String,
}

/// The views of a list of rows of cells.
pub open spec fn rows_view(rows: Seq<Vec<String>>) -> Seq<Seq<Seq<char>>> {
    rows.map_values(|r: Vec<String>| strings_view(r@))
}

/// One Markdown table line: `| a | b |` and a line feed.
pub open spec fn md_row(cells: Seq<Seq<char>>) -> Seq<char> {
    "| "@ + join_spec(cells, " | "@) + " |\n"@
}

/// Markdown lines for each row, in order.
pub open spec fn md_lines(rows: Seq<Seq<Seq<char>>>) -> Seq<char>
    decreases rows.len(),
{
    if rows.len() == 0 {
        Seq::empty()
    } else {
        md_lines(rows.drop_last()) + md_row(rows.last())
    }
}

/// A Markdown table: the first row is the header, followed by a separator
/// line with one `---` per header cell, then the other rows. No rows give
/// no text.
pub open spec fn table_markdown(rows: Seq<Seq<Seq<char>>>) -> Seq<char> {
    if rows.len() == 0 {
        Seq::empty()
    } else {
        md_row(rows[0]) + md_row(Seq::new(rows[0].len(), |i: int| "---"@)) + md_lines(rows.skip(1))
    }
}

/// A CSV field: quoted, with inner quotes doubled, when it holds a comma,
/// a quote or a line feed; as it is otherwise.
pub open spec fn csv_field(c: Seq<char>) -> Seq<char> {
    if c.contains(',') || c.contains('"') || c.contains('\n') {
        "\""@ + replace_spec(c, "\""@, "\"\""@) + "\""@
    } else {
        c
    }
}

/// CSV text: each row's fields joined by commas, each row ending in a line feed.
pub open spec fn table_csv(rows: Seq<Seq<Seq<char>>>) -> Seq<char>
    decreases rows.len(),
{
    if rows.len() == 0 {
        Seq::empty()
    } else {
        table_csv(rows.drop_last()) + join_spec(rows.last().map_values(|c: Seq<char>| csv_field(c)), ","@) + "\n"@
    }
}

fn has_char(v: &[char], c: char) -> (b: bool)
    ensures
        b == v@.contains(c),
{
    let mut i: usize = 0;
    while i < v.len()
        invariant
            i <= v.len(),
            forall|j: int| 0 <= j < i ==> v@[j] != c,
        decreases v.len() - i,
    {
        if v[i] == c {
            return true;
        }
        i += 1;
    }
    false
}

fn csv_field_exec(cell: &String) -> (r: String)
    ensures
        r@ == csv_field(cell@),
{
    let v = str_chars(cell.as_str());
    if has_char(v.as_slice(), ',') || has_char(v.as_slice(), '"') || has_char(v.as_slice(), '\n') {
        let q = str_chars("\"");
        let qq = str_chars("\"\"");
        let (body, _n) = replace_chars(v.as_slice(), q.as_slice(), qq.as_slice());
        let mut out = "\"".to_owned();
        push_chars(&mut out, body.as_slice());
        push_str(&mut out, "\"");
        out
    } else {
        string_from_chars(v.as_slice())
    }
}

fn md_row_exec(cells: &Vec<String>, out: &mut String)
    ensures
        final(out)@ == old(out)@ + md_row(strings_view(cells@)),
{
    push_str(out, "| ");
    let j = join_strings(cells, " | ");
    push_str(out, j.as_str());
    push_str(out, " |\n");
}

/// The rows as a Markdown table.
pub fn format_as_markdown(rows: &Vec<Vec<String>>) -> (r: String)
    ensures
        r@ == table_markdown(rows_view(rows@)),
{
    if rows.len() == 0 {
        return String::new();
    }
    let ghost rv = rows_view(rows@);
    let mut out = String::new();
    md_row_exec(&rows[0], &mut out);
    let mut sep: Vec<String> = Vec::new();
    let n0 = rows[0].len();
    let mut c: usize = 0;
    while c < n0
        invariant
            n0 == rows@[0].len(),
            c <= n0,
            sep.len() == c,
            forall|i: int| 0 <= i < c ==> (#[trigger] sep@[i])@ == "---"@,
        decreases n0 - c,
    {
        sep.push("---".to_owned());
        c += 1;
    }
    assert(strings_view(sep@) == Seq::new(rv[0].len(), |i: int| "---"@));
    md_row_exec(&sep, &mut out);
    let mut i: usize = 1;
    while i < rows.len()
        invariant
            1 <= i <= rows.len(),
            rv == rows_view(rows@),
            out@ == md_row(rv[0]) + md_row(Seq::new(rv[0].len(), |i: int| "---"@))
                + md_lines(rv.skip(1).take(i - 1)),
        decreases rows.len() - i,
    {
        assert(rv.skip(1).take(i as int).drop_last() == rv.skip(1).take(i - 1));
        md_row_exec(&rows[i], &mut out);
        i += 1;
    }
    assert(rv.skip(1).take(rows.len() - 1) == rv.skip(1));
    out
}

/// The rows as CSV text.
pub fn format_as_csv(rows: &Vec<Vec<String>>) -> (r: String)
    ensures
        r@ == table_csv(rows_view(rows@)),
{
    let ghost rv = rows_view(rows@);
    let mut out = String::new();
    let mut i: usize = 0;
    while i < rows.len()
        invariant
            i <= rows.len(),
            rv == rows_view(rows@),
            out@ == table_csv(rv.take(i as int)),
        decreases rows.len() - i,
    {
        let row = &rows[i];
        let mut fields: Vec<String> = Vec::new();
        let mut j: usize = 0;
        while j < row.len()
            invariant
                j <= row.len(),
                fields.len() == j,
                forall|k: int| 0 <= k < j ==> (#[trigger] fields@[k])@ == csv_field(row@[k]@),
            decreases row.len() - j,
        {
            fields.push(csv_field_exec(&row[j]));
            j += 1;
        }
        assert(strings_view(fields@) == rv[i as int].map_values(|c: Seq<char>| csv_field(c)));
        let line = join_strings(&fields, ",");
        assert(rv.take(i + 1).drop_last() == rv.take(i as int));
        push_str(&mut out, line.as_str());
        push_str(&mut out, "\n");
        i += 1;
    }
    assert(rv.take(rows.len() as int) == rv);
    out
}

/// The XML of one table cell holding the (already escaped) text.
pub open spec fn cell_xml(escaped: Seq<char>) -> Seq<char> {
    "<w:tc><w:tcPr><w:tcW w:w=\"0\" w:type=\"auto\"/></w:tcPr><w:p><w:r><w:t xml:space=\"preserve\">"@
        + escaped + "</w:t></w:r></w:p></w:tc>"@
}

/// The cells of a new row, in order.
pub open spec fn row_cells_xml(cells: Seq<Seq<char>>) -> Seq<char>
    decreases cells.len(),
{
    if cells.len() == 0 {
        Seq::empty()
    } else {
        row_cells_xml(cells.drop_last()) + cell_xml(escape_spec(cells.last()))
    }
}

/// The XML of a table row with one cell per value.
pub open spec fn row_xml(cells: Seq<Seq<char>>) -> Seq<char> {
    "<w:tr>"@ + row_cells_xml(cells) + "</w:tr>"@
}

fn push_cell_xml(out: &mut String, value: &str)
    ensures
        final(out)@ == old(out)@ + cell_xml(escape_spec(value@)),
{
    push_str(out, "<w:tc><w:tcPr><w:tcW w:w=\"0\" w:type=\"auto\"/></w:tcPr><w:p><w:r><w:t xml:space=\"preserve\">");
    let e = escape_xml(value);
    push_str(out, e.as_str());
    push_str(out, "</w:t></w:r></w:p></w:tc>");
}

/// The properties a rewritten cell gets when it had none.
pub open spec fn default_tcpr() -> Seq<char> {
    "<w:tcPr><w:tcW w:w=\"0\" w:type=\"auto\"/></w:tcPr>"@
}

/// The paragraph of a cell holding the (already escaped) text.
pub open spec fn cell_para_xml(escaped: Seq<char>) -> Seq<char> {
    "<w:p><w:r><w:t xml:space=\"preserve\">"@ + escaped + "</w:t></w:r></w:p>"@
}

fn push_cell_para_xml(out: &mut String, value: &str)
    ensures
        final(out)@ == old(out)@ + cell_para_xml(escape_spec(value@)),
{
    push_str(out, "<w:p><w:r><w:t xml:space=\"preserve\">");
    let e = escape_xml(value);
    push_str(out, e.as_str());
    push_str(out, "</w:t></w:r></w:p>");
}

/// The XML of a new table row holding the values.
pub fn build_row_xml(cells: &[String]) -> (r: String)
    ensures
        r@ == row_xml(cells@.map_values(|c: String| c@)),
{
    let ghost cv = cells@.map_values(|c: String| c@);
    let mut row = "<w:tr>".to_owned();
    let mut i: usize = 0;
    while i < cells.len()
        invariant
            i <= cells.len(),
            cv == cells@.map_values(|c: String| c@),
            row@ == "<w:tr>"@ + row_cells_xml(cv.take(i as int)),
        decreases cells.len() - i,
    {
        assert(cv.take(i + 1).drop_last() == cv.take(i as int));
        push_cell_xml(&mut row, cells[i].as_str());
        i += 1;
    }
    assert(cv.take(cells.len() as int) == cv);
    push_str(&mut row, "</w:tr>");
    row
}

/// What a reading of the tokens gathers for table number `target`: whether
/// it was found, the number of tables that ended before the reading stopped,
/// and the trimmed text of each cell, row by row. A reading stops at the
/// end of the target table. Cell text is the text inside `w:tc`; a row is
/// added at the end of each `w:tr`.
pub open spec fn table_scan(
    ts: Seq<XmlToken>,
    k: int,
    target: nat,
    idx: nat,
    in_t: bool,
    rows: Seq<Seq<Seq<char>>>,
    row: Seq<Seq<char>>,
    cell: Seq<char>,
    in_cell: bool,
) -> (bool, nat, Seq<Seq<Seq<char>>>)
    decreases ts.len() - k,
{
    if k < 0 || k >= ts.len() {
        (in_t, idx, rows)
    } else {
        let t = ts[k];
        if t.kind == XmlKind::Start {
            if t.name@ == "tbl"@ {
                table_scan(ts, k + 1, target, idx, in_t || idx == target, rows, row, cell, in_cell)
            } else if t.name@ == "tr"@ && in_t {
                table_scan(ts, k + 1, target, idx, in_t, rows, Seq::empty(), cell, in_cell)
            } else if t.name@ == "tc"@ && in_t {
                table_scan(ts, k + 1, target, idx, in_t, rows, row, Seq::empty(), true)
            } else {
                table_scan(ts, k + 1, target, idx, in_t, rows, row, cell, in_cell)
            }
        } else if t.kind == XmlKind::Text && in_t && in_cell {
            table_scan(ts, k + 1, target, idx, in_t, rows, row, cell + t.text@, in_cell)
        } else if t.kind == XmlKind::End {
            if t.name@ == "tc"@ && in_t {
                table_scan(ts, k + 1, target, idx, in_t, rows, row.push(trim(cell)), cell, false)
            } else if t.name@ == "tr"@ && in_t {
                table_scan(ts, k + 1, target, idx, in_t, rows.push(row), row, cell, in_cell)
            } else if t.name@ == "tbl"@ {
                if in_t {
                    (true, idx, rows)
                } else {
                    table_scan(ts, k + 1, target, idx + 1, in_t, rows, row, cell, in_cell)
                }
            } else {
                table_scan(ts, k + 1, target, idx, in_t, rows, row, cell, in_cell)
            }
        } else {
            table_scan(ts, k + 1, target, idx, in_t, rows, row, cell, in_cell)
        }
    }
}

/// The reading of table number `target` from the start of the tokens.
pub open spec fn scan_from_start(ts: Seq<XmlToken>, target: nat) -> (bool, nat, Seq<Seq<Seq<char>>>) {
    table_scan(ts, 0, target, 0, false, Seq::empty(), Seq::empty(), Seq::empty(), false)
}

fn copy_row(v: &Vec<String>) -> (r: Vec<String>)
    ensures
        strings_view(r@) == strings_view(v@),
{
    let mut r: Vec<String> = Vec::new();
    let mut i: usize = 0;
    while i < v.len()
        invariant
            i <= v.len(),
            strings_view(r@) == strings_view(v@).take(i as int),
        decreases v.len() - i,
    {
        let ghost before = strings_view(r@);
        r.push(v[i].clone());
        assert(strings_view(r@) == before.push(v@[i as int]@));
        assert(strings_view(v@).take(i + 1) == strings_view(v@).take(i as int).push(v@[i as int]@));
        i += 1;
    }
    assert(strings_view(v@).take(v.len() as int) == strings_view(v@));
    r
}

/// Reads table number `target`: whether it was found, how many tables
/// ended before the reading stopped, and its rows of trimmed cell text.
pub fn scan_table(ts: &Vec<XmlToken>, target: usize) -> (r: (bool, usize, Vec<Vec<String>>))
    ensures
        scan_from_start(ts@, target as nat) == (r.0, r.1 as nat, rows_view(r.2@)),
{
    let mut idx: usize = 0;
    let mut in_t = false;
    let mut rows: Vec<Vec<String>> = Vec::new();
    let mut row: Vec<String> = Vec::new();
    let mut cell: Vec<char> = Vec::new();
    let mut in_cell = false;
    let mut k: usize = 0;
    assert(rows_view(rows@) == Seq::<Seq<Seq<char>>>::empty());
    assert(strings_view(row@) == Seq::<Seq<char>>::empty());
    assert(cell@ == Seq::<char>::empty());
    while k < ts.len()
        invariant
            k <= ts.len(),
            idx <= k,
            scan_from_start(ts@, target as nat) == table_scan(ts@, k as int, target as nat, idx as nat, in_t,
                rows_view(rows@), strings_view(row@), cell@, in_cell),
        decreases ts.len() - k,
    {
        let t = &ts[k];
        if t.kind == XmlKind::Start {
            if tag_is(t, XmlKind::Start, "tbl") {
                if idx == target {
                    in_t = true;
                }
            } else if tag_is(t, XmlKind::Start, "tr") && in_t {
                row = Vec::new();
                assert(strings_view(row@) == Seq::<Seq<char>>::empty());
            } else if tag_is(t, XmlKind::Start, "tc") && in_t {
                in_cell = true;
                cell = Vec::new();
                assert(cell@ == Seq::<char>::empty());
            }
        } else if t.kind == XmlKind::Text && in_t && in_cell {
            let txt = str_chars(t.text.as_str());
            crate::text::extend_chars(&mut cell, txt.as_slice());
        } else if t.kind == XmlKind::End {
            if tag_is(t, XmlKind::End, "tc") && in_t {
                in_cell = false;
                let trimmed = trim_chars(cell.as_slice());
                let ghost before = strings_view(row@);
                row.push(string_from_chars(trimmed.as_slice()));
                assert(strings_view(row@) == before.push(trim(cell@)));
            } else if tag_is(t, XmlKind::End, "tr") && in_t {
                let ghost before = rows_view(rows@);
                rows.push(copy_row(&row));
                assert(rows_view(rows@) == before.push(strings_view(row@)));
            } else if tag_is(t, XmlKind::End, "tbl") {
                if in_t {
                    return (true, idx, rows);
                }
                idx += 1;
            }
        }
        k += 1;
    }
    (in_t, idx, rows)
}

/// The form of table output that a format word asks for, by its lowercase
/// form: `markdown` or `md`, `csv`, and `json` for every other word.
pub open spec fn table_format(fmt_lower: Seq<char>) -> Seq<char> {
    if fmt_lower == "markdown"@ || fmt_lower == "md"@ {
        "markdown"@
    } else if fmt_lower == "csv"@ {
        "csv"@
    } else {
        "json"@
    }
}

/// `resp` reports table `target` with these rows in the form `form`.
pub open spec fn table_data_matches(resp: TableDataResponse, target: usize, form: Seq<char>, rows: Seq<Seq<Seq<char>>>) -> bool {
    &&& resp.status@ == "success"@
    &&& resp.table_index == target
    &&& resp.total_rows == rows.len()
    &&& resp.format@ == form
    &&& if form == "markdown"@ {
        resp.data is None && (resp.content matches Some(c) && c@ == table_markdown(rows))
    } else if form == "csv"@ {
        resp.data is None && (resp.content matches Some(c) && c@ == table_csv(rows))
    } else {
        resp.content is None && (resp.data matches Some(d) && rows_view(d@) == rows)
    }
}

/// The message when no table has the index.
pub open spec fn table_missing_message(target: nat, count: nat) -> Seq<char> {
    "未找到索引为 "@ + decimal(target) + " 的表格 (当前文档最大表格数: "@ + decimal(count) + ")"@
}

/// The answer to a table read, given what the reading gathered: the rows in
/// the asked form when the table was found, `NotFound` otherwise.
pub fn table_data_response(target: usize, format_type: &str, found: bool, count: usize, rows: Vec<Vec<String>>)
    -> (r: Result<TableDataResponse, WordCliError>)
    ensures
        found ==> (r matches Ok(resp) && table_data_matches(resp, target, table_format(lowercase(format_type@)), rows_view(rows@))),
        !found ==> (r matches Err(e) && e is NotFound
            && e->NotFound_0@ == table_missing_message(target as nat, count as nat)),
{
    if !found {
        let mut msg = "未找到索引为 ".to_owned();
        push_decimal(&mut msg, target);
        push_str(&mut msg, " 的表格 (当前文档最大表格数: ");
        push_decimal(&mut msg, count);
        push_str(&mut msg, ")");
        return Err(WordCliError::NotFound(msg));
    }
    let lower = str_chars(to_lowercase(format_type).as_str());
    let n = rows.len();
    proof {
        reveal_strlit("markdown");
        reveal_strlit("csv");
        reveal_strlit("json");
    }
    if chars_eq(lower.as_slice(), str_chars("markdown").as_slice()) || chars_eq(lower.as_slice(), str_chars("md").as_slice()) {
        let md = format_as_markdown(&rows);
        assert(table_format(lowercase(format_type@)) == "markdown"@);
        Ok(TableDataResponse {
            status: "success".to_owned(),
            table_index: target,
            total_rows: n,
            format: "markdown".to_owned(),
            data: None,
            content: Some(md),
        })
    } else if chars_eq(lower.as_slice(), str_chars("csv").as_slice()) {
        let csv = format_as_csv(&rows);
        assert(table_format(lowercase(format_type@)) == "csv"@);
        Ok(TableDataResponse {
            status: "success".to_owned(),
            table_index: target,
            total_rows: n,
            format: "csv".to_owned(),
            data: None,
            content: Some(csv),
        })
    } else {
        assert(table_format(lowercase(format_type@)) == "json"@);
        Ok(TableDataResponse {
            status: "success".to_owned(),
            table_index: target,
            total_rows: n,
            format: "json".to_owned(),
            data: Some(rows),
            content: None,
        })
    }
}

/// Reads the cells of table number `target_tbl_idx` (counted from 0 in
/// document order, with blank text around markup skipped) in the form that
/// `format_type` names.
pub fn read_table_data(pkg: &DocxPackage, target_tbl_idx: usize, format_type: &str)
    -> (r: Result<TableDataResponse, WordCliError>)
    ensures
        part_text(pkg@, document_part()) == Err::<Seq<char>, int>(0) ==> (r matches Err(e) && e is NotFound),
        part_text(pkg@, document_part()) == Err::<Seq<char>, int>(1) ==> (r matches Err(e) && e is CorruptedDocument),
        part_text(pkg@, document_part()) matches Ok(d) ==> match xml_events(d, true) {
            Err(m) => r matches Err(WordCliError::XmlParseError(x)) && x@ == m,
            Ok(_) => exists|ts: Seq<XmlToken>| #[trigger] parsed_as(d, true, ts) && if scan_from_start(ts, target_tbl_idx as nat).0 {
                r matches Ok(resp) && table_data_matches(resp, target_tbl_idx, table_format(lowercase(format_type@)),
                    scan_from_start(ts, target_tbl_idx as nat).2)
            } else {
                r matches Err(WordCliError::NotFound(x))
                    && x@ == table_missing_message(target_tbl_idx as nat, scan_from_start(ts, target_tbl_idx as nat).1)
            },
        },
{
    let doc = pkg.get_text("word/document.xml")?;
    let ts = match tokenize(doc.as_str(), true) {
        Ok(ts) => ts,
        Err(m) => return Err(WordCliError::XmlParseError(m)),
    };
    assert(parsed_as(doc@, true, ts@));
    let (found, count, rows) = scan_table(&ts, target_tbl_idx);
    table_data_response(target_tbl_idx, format_type, found, count, rows)
}

/// The text that setting a cell writes, and whether the cell was reached.
/// In the `w:tc` at row `rt`, column `ct` (counted from 0) of table `tt`,
/// the start tag and the cell's properties (`w:tcPr`) are kept, the rest of
/// its content is dropped, and `cx` is written before its end tag, after
/// default properties when the cell had none. Every other token is written
/// as it came.
pub open spec fn cell_fold(
    ts: Seq<XmlToken>,
    k: int,
    tt: nat,
    rt: nat,
    ct: nat,
    cx: Seq<char>,
    tbl: nat,
    in_t: bool,
    row: nat,
    col: nat,
    in_cell: bool,
    in_pr: bool,
    had_pr: bool,
    written: bool,
) -> (Seq<char>, bool)
    decreases ts.len() - k,
{
    if k < 0 || k >= ts.len() {
        (Seq::empty(), written)
    } else {
        let t = ts[k];
        if is_tag(t, XmlKind::Start, "tbl"@) {
            let hit = tbl == tt;
            let r = cell_fold(ts, k + 1, tt, rt, ct, cx, tbl, in_t || hit, if hit { 0 } else { row }, col, in_cell, in_pr, had_pr, written);
            (t.raw@ + r.0, r.1)
        } else if in_t && is_tag(t, XmlKind::Start, "tr"@) {
            let r = cell_fold(ts, k + 1, tt, rt, ct, cx, tbl, in_t, row, 0, in_cell, in_pr, had_pr, written);
            (t.raw@ + r.0, r.1)
        } else if in_t && is_tag(t, XmlKind::Start, "tc"@) {
            if row == rt && col == ct {
                let r = cell_fold(ts, k + 1, tt, rt, ct, cx, tbl, in_t, row, col, true, false, false, true);
                (t.raw@ + r.0, r.1)
            } else {
                let r = cell_fold(ts, k + 1, tt, rt, ct, cx, tbl, in_t, row, col, in_cell, in_pr, had_pr, written);
                (t.raw@ + r.0, r.1)
            }
        } else if in_t && is_tag(t, XmlKind::End, "tc"@) {
            let r = cell_fold(ts, k + 1, tt, rt, ct, cx, tbl, in_t, row, col + 1, false, false, had_pr, written);
            ((if in_cell { (if had_pr { Seq::empty() } else { default_tcpr() }) + cx } else { Seq::empty() }) + t.raw@ + r.0, r.1)
        } else if in_t && is_tag(t, XmlKind::End, "tr"@) {
            let r = cell_fold(ts, k + 1, tt, rt, ct, cx, tbl, in_t, row + 1, col, in_cell, in_pr, had_pr, written);
            (t.raw@ + r.0, r.1)
        } else if is_tag(t, XmlKind::End, "tbl"@) {
            let r = cell_fold(ts, k + 1, tt, rt, ct, cx, tbl + 1, false, row, col, in_cell, in_pr, had_pr, written);
            (t.raw@ + r.0, r.1)
        } else if in_cell && is_tag(t, XmlKind::Start, "tcPr"@) {
            let r = cell_fold(ts, k + 1, tt, rt, ct, cx, tbl, in_t, row, col, in_cell, true, true, written);
            (t.raw@ + r.0, r.1)
        } else if in_cell && is_tag(t, XmlKind::Empty, "tcPr"@) {
            let r = cell_fold(ts, k + 1, tt, rt, ct, cx, tbl, in_t, row, col, in_cell, in_pr, true, written);
            (t.raw@ + r.0, r.1)
        } else if in_cell && is_tag(t, XmlKind::End, "tcPr"@) {
            let r = cell_fold(ts, k + 1, tt, rt, ct, cx, tbl, in_t, row, col, in_cell, false, had_pr, written);
            (t.raw@ + r.0, r.1)
        } else {
            let r = cell_fold(ts, k + 1, tt, rt, ct, cx, tbl, in_t, row, col, in_cell, in_pr, had_pr, written);
            ((if in_cell && !in_pr { Seq::empty() } else { t.raw@ }) + r.0, r.1)
        }
    }
}

/// Rewrites one table cell around the content `cx`; also says whether the
/// cell was found.
#[verifier::rlimit(60)]
pub fn rewrite_cell(ts: &Vec<XmlToken>, tt: usize, rt: usize, ct: usize, cx: &[char]) -> (r: (Vec<char>, bool))
    ensures
        ({
            let f = cell_fold(ts@, 0, tt as nat, rt as nat, ct as nat, cx@, 0, false, 0, 0, false, false, false, false);
            r.0@ == f.0 && r.1 == f.1
        }),
{
    let ghost f0 = cell_fold(ts@, 0, tt as nat, rt as nat, ct as nat, cx@, 0, false, 0, 0, false, false, false, false);
    proof {
        reveal_strlit("<w:tcPr><w:tcW w:w=\"0\" w:type=\"auto\"/></w:tcPr>");
    }
    let dflt = str_chars("<w:tcPr><w:tcW w:w=\"0\" w:type=\"auto\"/></w:tcPr>");
    let mut out: Vec<char> = Vec::new();
    let mut tbl: usize = 0;
    let mut in_t = false;
    let mut row: usize = 0;
    let mut col: usize = 0;
    let mut in_cell = false;
    let mut in_pr = false;
    let mut had_pr = false;
    let mut written = false;
    let mut k: usize = 0;
    while k < ts.len()
        invariant
            k <= ts.len(),
            tbl <= k,
            row <= k,
            col <= k,
            dflt@ == default_tcpr(),
            f0 == cell_fold(ts@, 0, tt as nat, rt as nat, ct as nat, cx@, 0, false, 0, 0, false, false, false, false),
            ({
                let fk = cell_fold(ts@, k as int, tt as nat, rt as nat, ct as nat, cx@, tbl as nat, in_t,
                    row as nat, col as nat, in_cell, in_pr, had_pr, written);
                f0.0 == out@ + fk.0 && f0.1 == fk.1
            }),
        decreases ts.len() - k,
    {
        let t = &ts[k];
        let raw = str_chars(t.raw.as_str());
        let s_tbl = tag_is(t, XmlKind::Start, "tbl");
        let s_tr = tag_is(t, XmlKind::Start, "tr");
        let s_tc = tag_is(t, XmlKind::Start, "tc");
        let e_tc = tag_is(t, XmlKind::End, "tc");
        let e_tr = tag_is(t, XmlKind::End, "tr");
        let e_tbl = tag_is(t, XmlKind::End, "tbl");
        let s_pr = tag_is(t, XmlKind::Start, "tcPr");
        let m_pr = tag_is(t, XmlKind::Empty, "tcPr");
        let e_pr = tag_is(t, XmlKind::End, "tcPr");
        let ghost st = (tbl as nat, in_t, row as nat, col as nat, in_cell, in_pr, had_pr, written);
        let ghost o = out@;
        if s_tbl {
            if tbl == tt {
                in_t = true;
                row = 0;
            }
            crate::text::extend_chars(&mut out, raw.as_slice());
        } else if in_t && s_tr {
            col = 0;
            crate::text::extend_chars(&mut out, raw.as_slice());
        } else if in_t && s_tc {
            if row == rt && col == ct {
                in_cell = true;
                in_pr = false;
                had_pr = false;
                written = true;
            }
            crate::text::extend_chars(&mut out, raw.as_slice());
        } else if in_t && e_tc {
            if in_cell {
                if !had_pr {
                    crate::text::extend_chars(&mut out, dflt.as_slice());
                }
                crate::text::extend_chars(&mut out, cx);
                in_cell = false;
            }
            in_pr = false;
            crate::text::extend_chars(&mut out, raw.as_slice());
            col += 1;
        } else if in_t && e_tr {
            crate::text::extend_chars(&mut out, raw.as_slice());
            row += 1;
        } else if e_tbl {
            in_t = false;
            tbl += 1;
            crate::text::extend_chars(&mut out, raw.as_slice());
        } else if in_cell && s_pr {
            in_pr = true;
            had_pr = true;
            crate::text::extend_chars(&mut out, raw.as_slice());
        } else if in_cell && m_pr {
            had_pr = true;
            crate::text::extend_chars(&mut out, raw.as_slice());
        } else if in_cell && e_pr {
            in_pr = false;
            crate::text::extend_chars(&mut out, raw.as_slice());
        } else if !in_cell || in_pr {
            crate::text::extend_chars(&mut out, raw.as_slice());
        }
        proof {
            let fk = cell_fold(ts@, k as int, tt as nat, rt as nat, ct as nat, cx@, st.0, st.1, st.2, st.3, st.4, st.5, st.6, st.7);
            let fn_ = cell_fold(ts@, k + 1, tt as nat, rt as nat, ct as nat, cx@, tbl as nat, in_t, row as nat, col as nat, in_cell, in_pr, had_pr, written);
            assert(o + fk.0 == out@ + fn_.0 && fk.1 == fn_.1);
        }
        k += 1;
    }
    (out, written)
}

/// The text that inserting a row writes, whether the row went in, and the
/// number of rows of the target table that were passed. The new row `rx`
/// goes before the `w:tr` numbered `rt` (from 0) of table `tt`, or before
/// the table's end when `rt` equals its number of rows.
pub open spec fn row_insert_fold(
    ts: Seq<XmlToken>,
    k: int,
    tt: nat,
    rt: nat,
    rx: Seq<char>,
    tbl: nat,
    in_t: bool,
    row: nat,
    inserted: bool,
) -> (Seq<char>, bool, nat)
    decreases ts.len() - k,
{
    if k < 0 || k >= ts.len() {
        (Seq::empty(), inserted, row)
    } else {
        let t = ts[k];
        if is_tag(t, XmlKind::Start, "tbl"@) {
            let hit = tbl == tt;
            let r = row_insert_fold(ts, k + 1, tt, rt, rx, tbl, in_t || hit, if hit { 0 } else { row }, inserted);
            (t.raw@ + r.0, r.1, r.2)
        } else if in_t && is_tag(t, XmlKind::Start, "tr"@) {
            let here = row == rt && !inserted;
            let r = row_insert_fold(ts, k + 1, tt, rt, rx, tbl, in_t, row, inserted || here);
            ((if here { rx } else { Seq::empty() }) + t.raw@ + r.0, r.1, r.2)
        } else if in_t && is_tag(t, XmlKind::End, "tr"@) {
            let r = row_insert_fold(ts, k + 1, tt, rt, rx, tbl, in_t, row + 1, inserted);
            (t.raw@ + r.0, r.1, r.2)
        } else if is_tag(t, XmlKind::End, "tbl"@) {
            let here = in_t && !inserted && row == rt;
            let r = row_insert_fold(ts, k + 1, tt, rt, rx, tbl + 1, false, row, inserted || here);
            ((if here { rx } else { Seq::empty() }) + t.raw@ + r.0, r.1, r.2)
        } else {
            let r = row_insert_fold(ts, k + 1, tt, rt, rx, tbl, in_t, row, inserted);
            (t.raw@ + r.0, r.1, r.2)
        }
    }
}

/// Where a new row goes, reading the tokens from position `k` on: the
/// start tag of the row of table `tt` before which `rt` of that table's
/// rows have ended, or the table's end tag when the table ends after
/// exactly `rt` rows; `None` when there is no such place.
pub open spec fn row_insert_point(ts: Seq<XmlToken>, k: int, tt: nat, rt: nat, tbl: nat, in_t: bool, row: nat) -> Option<int>
    decreases ts.len() - k,
{
    if k < 0 || k >= ts.len() {
        None
    } else {
        let t = ts[k];
        if is_tag(t, XmlKind::Start, "tbl"@) {
            let hit = tbl == tt;
            row_insert_point(ts, k + 1, tt, rt, tbl, in_t || hit, if hit { 0 } else { row })
        } else if in_t && is_tag(t, XmlKind::Start, "tr"@) {
            if row == rt {
                Some(k)
            } else {
                row_insert_point(ts, k + 1, tt, rt, tbl, in_t, row)
            }
        } else if in_t && is_tag(t, XmlKind::End, "tr"@) {
            row_insert_point(ts, k + 1, tt, rt, tbl, in_t, row + 1)
        } else if is_tag(t, XmlKind::End, "tbl"@) {
            if in_t && row == rt {
                Some(k)
            } else {
                row_insert_point(ts, k + 1, tt, rt, tbl + 1, false, row)
            }
        } else {
            row_insert_point(ts, k + 1, tt, rt, tbl, in_t, row)
        }
    }
}

proof fn lemma_raw_concat_cons(ts: Seq<XmlToken>, k: int, m: int)
    requires
        0 <= k < m <= ts.len(),
    ensures
        raw_concat(ts.subrange(k, m)) == ts[k].raw@ + raw_concat(ts.subrange(k + 1, m)),
{
    let one = seq![ts[k]];
    assert(ts.subrange(k, m) =~= one + ts.subrange(k + 1, m));
    lemma_raw_concat_append(one, ts.subrange(k + 1, m));
    assert(one.drop_last() =~= Seq::<XmlToken>::empty());
    assert(raw_concat(one) == raw_concat(one.drop_last()) + ts[k].raw@);
    assert(raw_concat(Seq::<XmlToken>::empty()) == Seq::<char>::empty());
}

proof fn lemma_fold_after_insert(ts: Seq<XmlToken>, k: int, tt: nat, rt: nat, rx: Seq<char>, tbl: nat, in_t: bool, row: nat)
    requires
        0 <= k <= ts.len(),
    ensures
        row_insert_fold(ts, k, tt, rt, rx, tbl, in_t, row, true).0 == raw_concat(ts.subrange(k, ts.len() as int)),
        row_insert_fold(ts, k, tt, rt, rx, tbl, in_t, row, true).1,
    decreases ts.len() - k,
{
    if k == ts.len() {
        assert(ts.subrange(k, k) =~= Seq::<XmlToken>::empty());
    } else {
        let t = ts[k];
        lemma_raw_concat_cons(ts, k, ts.len() as int);
        if is_tag(t, XmlKind::Start, "tbl"@) {
            let hit = tbl == tt;
            lemma_fold_after_insert(ts, k + 1, tt, rt, rx, tbl, in_t || hit, if hit { 0 } else { row });
        } else if in_t && is_tag(t, XmlKind::Start, "tr"@) {
            lemma_fold_after_insert(ts, k + 1, tt, rt, rx, tbl, in_t, row);
        } else if in_t && is_tag(t, XmlKind::End, "tr"@) {
            lemma_fold_after_insert(ts, k + 1, tt, rt, rx, tbl, in_t, row + 1);
        } else if is_tag(t, XmlKind::End, "tbl"@) {
            lemma_fold_after_insert(ts, k + 1, tt, rt, rx, tbl + 1, false, row);
        } else {
            lemma_fold_after_insert(ts, k + 1, tt, rt, rx, tbl, in_t, row);
        }
    }
}

/// The rendering from `k` on with the row not yet written is the tokens with
/// the row put at the insertion point, or the tokens alone when there is none.
pub open spec fn fold_at_point(ts: Seq<XmlToken>, k: int, tt: nat, rt: nat, rx: Seq<char>, tbl: nat, in_t: bool, row: nat) -> bool {
    let f = row_insert_fold(ts, k, tt, rt, rx, tbl, in_t, row, false);
    let n = ts.len() as int;
    match row_insert_point(ts, k, tt, rt, tbl, in_t, row) {
        Some(p) => k <= p < n && (is_tag(ts[p], XmlKind::Start, "tr"@) || is_tag(ts[p], XmlKind::End, "tbl"@))
            && f.1 && f.0 == raw_concat(ts.subrange(k, p)) + rx + raw_concat(ts.subrange(p, n)),
        None => !f.1 && f.0 == raw_concat(ts.subrange(k, n)),
    }
}

proof fn lemma_point_passes(ts: Seq<XmlToken>, k: int, tt: nat, rt: nat, rx: Seq<char>, tbl: nat, in_t: bool, row: nat,
    tbl2: nat, in2: bool, row2: nat)
    requires
        0 <= k < ts.len(),
        fold_at_point(ts, k + 1, tt, rt, rx, tbl2, in2, row2),
        row_insert_point(ts, k, tt, rt, tbl, in_t, row) == row_insert_point(ts, k + 1, tt, rt, tbl2, in2, row2),
        row_insert_fold(ts, k, tt, rt, rx, tbl, in_t, row, false).0
            == ts[k].raw@ + row_insert_fold(ts, k + 1, tt, rt, rx, tbl2, in2, row2, false).0,
        row_insert_fold(ts, k, tt, rt, rx, tbl, in_t, row, false).1
            == row_insert_fold(ts, k + 1, tt, rt, rx, tbl2, in2, row2, false).1,
    ensures
        fold_at_point(ts, k, tt, rt, rx, tbl, in_t, row),
{
    let n = ts.len() as int;
    lemma_raw_concat_cons(ts, k, n);
    let f = row_insert_fold(ts, k, tt, rt, rx, tbl, in_t, row, false);
    let f1 = row_insert_fold(ts, k + 1, tt, rt, rx, tbl2, in2, row2, false);
    match row_insert_point(ts, k + 1, tt, rt, tbl2, in2, row2) {
        Some(p) => {
            lemma_raw_concat_cons(ts, k, p);
            assert(f1.0 == raw_concat(ts.subrange(k + 1, p)) + rx + raw_concat(ts.subrange(p, n)));
            assert(f.0 =~= raw_concat(ts.subrange(k, p)) + rx + raw_concat(ts.subrange(p, n)));
            assert(fold_at_point(ts, k, tt, rt, rx, tbl, in_t, row));
        },
        None => {
            assert(f1.0 == raw_concat(ts.subrange(k + 1, n)));
            assert(f.0 =~= raw_concat(ts.subrange(k, n)));
            assert(fold_at_point(ts, k, tt, rt, rx, tbl, in_t, row));
        },
    }
}

proof fn lemma_point_stops(ts: Seq<XmlToken>, k: int, tt: nat, rt: nat, rx: Seq<char>, tbl: nat, in_t: bool, row: nat,
    tbl2: nat, in2: bool, row2: nat)
    requires
        0 <= k < ts.len(),
        is_tag(ts[k], XmlKind::Start, "tr"@) || is_tag(ts[k], XmlKind::End, "tbl"@),
        row_insert_point(ts, k, tt, rt, tbl, in_t, row) == Some(k),
        row_insert_fold(ts, k, tt, rt, rx, tbl, in_t, row, false).0
            == rx + ts[k].raw@ + row_insert_fold(ts, k + 1, tt, rt, rx, tbl2, in2, row2, true).0,
        row_insert_fold(ts, k, tt, rt, rx, tbl, in_t, row, false).1
            == row_insert_fold(ts, k + 1, tt, rt, rx, tbl2, in2, row2, true).1,
    ensures
        fold_at_point(ts, k, tt, rt, rx, tbl, in_t, row),
{
    let n = ts.len() as int;
    lemma_raw_concat_cons(ts, k, n);
    lemma_fold_after_insert(ts, k + 1, tt, rt, rx, tbl2, in2, row2);
    assert(ts.subrange(k, k) =~= Seq::<XmlToken>::empty());
    assert(raw_concat(Seq::<XmlToken>::empty()) == Seq::<char>::empty());
    let f = row_insert_fold(ts, k, tt, rt, rx, tbl, in_t, row, false);
    assert(f.0 =~= raw_concat(ts.subrange(k, k)) + rx + raw_concat(ts.subrange(k, n)));
    assert(fold_at_point(ts, k, tt, rt, rx, tbl, in_t, row));
}

proof fn lemma_fold_at_point(ts: Seq<XmlToken>, k: int, tt: nat, rt: nat, rx: Seq<char>, tbl: nat, in_t: bool, row: nat)
    requires
        0 <= k <= ts.len(),
    ensures
        fold_at_point(ts, k, tt, rt, rx, tbl, in_t, row),
    decreases ts.len() - k,
{
    let n = ts.len() as int;
    if k == n {
        assert(ts.subrange(k, k) =~= Seq::<XmlToken>::empty());
    } else {
        let t = ts[k];
        if is_tag(t, XmlKind::Start, "tbl"@) {
            let hit = tbl == tt;
            let r2: nat = if hit { 0 } else { row };
            lemma_fold_at_point(ts, k + 1, tt, rt, rx, tbl, in_t || hit, r2);
            lemma_point_passes(ts, k, tt, rt, rx, tbl, in_t, row, tbl, in_t || hit, r2);
        } else if in_t && is_tag(t, XmlKind::Start, "tr"@) {
            if row == rt {
                lemma_point_stops(ts, k, tt, rt, rx, tbl, in_t, row, tbl, in_t, row);
            } else {
                lemma_fold_at_point(ts, k + 1, tt, rt, rx, tbl, in_t, row);
                lemma_point_passes(ts, k, tt, rt, rx, tbl, in_t, row, tbl, in_t, row);
            }
        } else if in_t && is_tag(t, XmlKind::End, "tr"@) {
            lemma_fold_at_point(ts, k + 1, tt, rt, rx, tbl, in_t, row + 1);
            lemma_point_passes(ts, k, tt, rt, rx, tbl, in_t, row, tbl, in_t, row + 1);
        } else if is_tag(t, XmlKind::End, "tbl"@) {
            if in_t && row == rt {
                lemma_point_stops(ts, k, tt, rt, rx, tbl, in_t, row, tbl + 1, false, row);
            } else {
                lemma_fold_at_point(ts, k + 1, tt, rt, rx, tbl + 1, false, row);
                lemma_point_passes(ts, k, tt, rt, rx, tbl, in_t, row, tbl + 1, false, row);
            }
        } else {
            lemma_fold_at_point(ts, k + 1, tt, rt, rx, tbl, in_t, row);
            lemma_point_passes(ts, k, tt, rt, rx, tbl, in_t, row, tbl, in_t, row);
        }
    }
}

/// Inserting a row copies the document's tokens unchanged and puts the new
/// row in exactly one place: before the start tag of the row of table `tt`
/// before which `rt` of its rows have ended (so the new row takes number
/// `rt` and the old rows from `rt` on follow it), or before the table's end
/// tag when the table has exactly `rt` rows. When there is no such place
/// nothing goes in and the text is the tokens as they were.
pub proof fn law_row_inserted_at_point(ts: Seq<XmlToken>, tt: usize, rt: usize, cells: Seq<String>)
    ensures
        ({
            let f = row_insert(ts, tt, rt, cells);
            let rx = row_xml(cells.map_values(|c: String| c@));
            match row_insert_point(ts, 0, tt as nat, rt as nat, 0, false, 0) {
                Some(p) => 0 <= p < ts.len() && (is_tag(ts[p], XmlKind::Start, "tr"@) || is_tag(ts[p], XmlKind::End, "tbl"@))
                    && f.1 && f.0 == raw_concat(ts.take(p)) + rx + raw_concat(ts.skip(p)),
                None => !f.1 && f.0 == raw_concat(ts),
            }
        }),
{
    let rx = row_xml(cells.map_values(|c: String| c@));
    lemma_fold_at_point(ts, 0, tt as nat, rt as nat, rx, 0, false, 0);
    assert(ts.subrange(0, ts.len() as int) =~= ts);
    match row_insert_point(ts, 0, tt as nat, rt as nat, 0, false, 0) {
        Some(p) => {
            assert(ts.subrange(0, p) =~= ts.take(p));
            assert(ts.subrange(p, ts.len() as int) =~= ts.skip(p));
        },
        None => {},
    }
}

/// Inserts the row `rx` into the tokens; also says whether it went in and
/// how many rows of the target table were passed.
pub fn insert_row_tokens(ts: &Vec<XmlToken>, tt: usize, rt: usize, rx: &[char]) -> (r: (Vec<char>, bool, usize))
    ensures
        ({
            let f = row_insert_fold(ts@, 0, tt as nat, rt as nat, rx@, 0, false, 0, false);
            r.0@ == f.0 && r.1 == f.1 && r.2 == f.2
        }),
{
    let ghost f0 = row_insert_fold(ts@, 0, tt as nat, rt as nat, rx@, 0, false, 0, false);
    let mut out: Vec<char> = Vec::new();
    let mut tbl: usize = 0;
    let mut in_t = false;
    let mut row: usize = 0;
    let mut inserted = false;
    let mut k: usize = 0;
    while k < ts.len()
        invariant
            k <= ts.len(),
            tbl <= k,
            row <= k,
            f0 == row_insert_fold(ts@, 0, tt as nat, rt as nat, rx@, 0, false, 0, false),
            ({
                let fk = row_insert_fold(ts@, k as int, tt as nat, rt as nat, rx@, tbl as nat, in_t, row as nat, inserted);
                f0.0 == out@ + fk.0 && f0.1 == fk.1 && f0.2 == fk.2
            }),
        decreases ts.len() - k,
    {
        let t = &ts[k];
        let raw = str_chars(t.raw.as_str());
        if tag_is(t, XmlKind::Start, "tbl") {
            if tbl == tt {
                in_t = true;
                row = 0;
            }
            crate::text::extend_chars(&mut out, raw.as_slice());
        } else if in_t && tag_is(t, XmlKind::Start, "tr") {
            if row == rt && !inserted {
                crate::text::extend_chars(&mut out, rx);
                inserted = true;
            }
            crate::text::extend_chars(&mut out, raw.as_slice());
        } else if in_t && tag_is(t, XmlKind::End, "tr") {
            crate::text::extend_chars(&mut out, raw.as_slice());
            row += 1;
        } else if tag_is(t, XmlKind::End, "tbl") {
            if in_t && !inserted && row == rt {
                crate::text::extend_chars(&mut out, rx);
                inserted = true;
            }
            in_t = false;
            tbl += 1;
            crate::text::extend_chars(&mut out, raw.as_slice());
        } else {
            crate::text::extend_chars(&mut out, raw.as_slice());
        }
        k += 1;
    }
    (out, inserted, row)
}

/// The text that deleting a row writes, and whether the row was found: the
/// `w:tr` numbered `rt` (from 0) of table `tt` is dropped with everything
/// inside it (table tags inside it excepted).
pub open spec fn row_delete_fold(
    ts: Seq<XmlToken>,
    k: int,
    tt: nat,
    rt: nat,
    tbl: nat,
    in_t: bool,
    row: nat,
    deleting: bool,
    deleted: bool,
) -> (Seq<char>, bool)
    decreases ts.len() - k,
{
    if k < 0 || k >= ts.len() {
        (Seq::empty(), deleted)
    } else {
        let t = ts[k];
        if is_tag(t, XmlKind::Start, "tbl"@) {
            let hit = tbl == tt;
            let r = row_delete_fold(ts, k + 1, tt, rt, tbl, in_t || hit, if hit { 0 } else { row }, deleting, deleted);
            (t.raw@ + r.0, r.1)
        } else if in_t && is_tag(t, XmlKind::Start, "tr"@) {
            if row == rt {
                row_delete_fold(ts, k + 1, tt, rt, tbl, in_t, row, true, true)
            } else {
                let r = row_delete_fold(ts, k + 1, tt, rt, tbl, in_t, row, deleting, deleted);
                (t.raw@ + r.0, r.1)
            }
        } else if in_t && is_tag(t, XmlKind::End, "tr"@) {
            let r = row_delete_fold(ts, k + 1, tt, rt, tbl, in_t, row + 1, false, deleted);
            ((if deleting { Seq::empty() } else { t.raw@ }) + r.0, r.1)
        } else if is_tag(t, XmlKind::End, "tbl"@) {
            let r = row_delete_fold(ts, k + 1, tt, rt, tbl + 1, false, row, deleting, deleted);
            (t.raw@ + r.0, r.1)
        } else {
            let r = row_delete_fold(ts, k + 1, tt, rt, tbl, in_t, row, deleting, deleted);
            ((if deleting { Seq::empty() } else { t.raw@ }) + r.0, r.1)
        }
    }
}

/// Deletes one table row from the tokens; also says whether it was found.
pub fn delete_row_tokens(ts: &Vec<XmlToken>, tt: usize, rt: usize) -> (r: (Vec<char>, bool))
    ensures
        ({
            let f = row_delete_fold(ts@, 0, tt as nat, rt as nat, 0, false, 0, false, false);
            r.0@ == f.0 && r.1 == f.1
        }),
{
    let ghost f0 = row_delete_fold(ts@, 0, tt as nat, rt as nat, 0, false, 0, false, false);
    let mut out: Vec<char> = Vec::new();
    let mut tbl: usize = 0;
    let mut in_t = false;
    let mut row: usize = 0;
    let mut deleting = false;
    let mut deleted = false;
    let mut k: usize = 0;
    while k < ts.len()
        invariant
            k <= ts.len(),
            tbl <= k,
            row <= k,
            f0 == row_delete_fold(ts@, 0, tt as nat, rt as nat, 0, false, 0, false, false),
            ({
                let fk = row_delete_fold(ts@, k as int, tt as nat, rt as nat, tbl as nat, in_t, row as nat, deleting, deleted);
                f0.0 == out@ + fk.0 && f0.1 == fk.1
            }),
        decreases ts.len() - k,
    {
        let t = &ts[k];
        let raw = str_chars(t.raw.as_str());
        if tag_is(t, XmlKind::Start, "tbl") {
            if tbl == tt {
                in_t = true;
                row = 0;
            }
            crate::text::extend_chars(&mut out, raw.as_slice());
        } else if in_t && tag_is(t, XmlKind::Start, "tr") {
            if row == rt {
                deleting = true;
                deleted = true;
            } else {
                crate::text::extend_chars(&mut out, raw.as_slice());
            }
        } else if in_t && tag_is(t, XmlKind::End, "tr") {
            if deleting {
                deleting = false;
            } else {
                crate::text::extend_chars(&mut out, raw.as_slice());
            }
            row += 1;
        } else if tag_is(t, XmlKind::End, "tbl") {
            in_t = false;
            tbl += 1;
            crate::text::extend_chars(&mut out, raw.as_slice());
        } else if !deleting {
            crate::text::extend_chars(&mut out, raw.as_slice());
        }
        k += 1;
    }
    (out, deleted)
}

/// `resp` reports a successful table edit.
pub open spec fn table_op_ok(resp: TableOpResponse, command: Seq<char>, table_index: usize, file: Seq<char>, message: Seq<char>) -> bool {
    &&& resp.status@ == "success"@
    &&& resp.command@ == command
    &&& resp.table_index == table_index
    &&& resp.file@ == file
    &&& resp.message@ == message
}

/// The text of the main part after a cell edit.
pub open spec fn cell_edit(ts: Seq<XmlToken>, tt: usize, rt: usize, ct: usize, value: Seq<char>) -> (Seq<char>, bool) {
    cell_fold(ts, 0, tt as nat, rt as nat, ct as nat, cell_para_xml(escape_spec(value)), 0, false, 0, 0, false, false, false, false)
}

/// Sets the text of the cell at `row`, `col` (from 0) of table
/// `target_tbl_idx` (from 0): the cell keeps its start tag and properties,
/// and its content becomes one paragraph with the escaped value. The caller writes the package out.
pub fn set_cell_value(pkg: &mut DocxPackage, file_path: &str, target_tbl_idx: usize, row: usize, col: usize, value: &str)
    -> (r: Result<TableOpResponse, WordCliError>)
    ensures
        r is Err ==> final(pkg)@ == old(pkg)@,
        part_text(old(pkg)@, document_part()) == Err::<Seq<char>, int>(0) ==> (r matches Err(e) && e is NotFound),
        part_text(old(pkg)@, document_part()) == Err::<Seq<char>, int>(1) ==> (r matches Err(e) && e is CorruptedDocument),
        part_text(old(pkg)@, document_part()) matches Ok(d) ==> match xml_events(d, false) {
            Err(m) => r matches Err(WordCliError::XmlParseError(x)) && x@ == m,
            Ok(_) => exists|ts: Seq<XmlToken>| #[trigger] parsed_as(d, false, ts) && if cell_edit(ts, target_tbl_idx, row, col, value@).1 {
                &&& r matches Ok(resp)
                &&& table_op_ok(resp, "set-cell"@, target_tbl_idx, file_path@,
                    "已成功更新单元格 ["@ + decimal(row as nat) + ", "@ + decimal(col as nat) + "] 内容"@)
                &&& final(pkg)@ == old(pkg)@.insert(document_part(), encode_utf8(cell_edit(ts, target_tbl_idx, row, col, value@).0))
            } else {
                r matches Err(WordCliError::InvalidParameter(x))
                    && x@ == "未找到目标单元格 [行:"@ + decimal(row as nat) + ", 列:"@ + decimal(col as nat) + "]"@
            },
        },
{
    let doc = pkg.get_text("word/document.xml")?;
    let ts = match tokenize(doc.as_str(), false) {
        Ok(ts) => ts,
        Err(m) => return Err(WordCliError::XmlParseError(m)),
    };
    assert(parsed_as(doc@, false, ts@));
    let mut cx = String::new();
    push_cell_para_xml(&mut cx, value);
    let cxv = str_chars(cx.as_str());
    let (out, written) = rewrite_cell(&ts, target_tbl_idx, row, col, cxv.as_slice());
    if !written {
        let mut msg = "未找到目标单元格 [行:".to_owned();
        push_decimal(&mut msg, row);
        push_str(&mut msg, ", 列:");
        push_decimal(&mut msg, col);
        push_str(&mut msg, "]");
        assert(!cell_edit(ts@, target_tbl_idx, row, col, value@).1);
        return Err(WordCliError::InvalidParameter(msg));
    }
    pkg.set_text("word/document.xml", string_from_chars(out.as_slice()));
    assert(pkg@ == old(pkg)@.insert(document_part(), encode_utf8(cell_edit(ts@, target_tbl_idx, row, col, value@).0)));
    let mut msg = "已成功更新单元格 [".to_owned();
    push_decimal(&mut msg, row);
    push_str(&mut msg, ", ");
    push_decimal(&mut msg, col);
    push_str(&mut msg, "] 内容");
    Ok(TableOpResponse {
        status: "success".to_owned(),
        command: "set-cell".to_owned(),
        table_index: target_tbl_idx,
        file: file_path.to_owned(),
        message: msg,
    })
}

/// The text of the main part after a row insertion, whether the row went
/// in, and the number of rows of the table that were passed.
pub open spec fn row_insert(ts: Seq<XmlToken>, tt: usize, rt: usize, cells: Seq<String>) -> (Seq<char>, bool, nat) {
    row_insert_fold(ts, 0, tt as nat, rt as nat, row_xml(cells.map_values(|c: String| c@)), 0, false, 0, false)
}

/// Inserts a new row with one cell per value before row `target_row_idx`
/// (from 0) of table `target_tbl_idx`, or at the table's end when the index
/// equals its number of rows. The caller writes the package out.
pub fn insert_table_row(pkg: &mut DocxPackage, file_path: &str, target_tbl_idx: usize, target_row_idx: usize, cells: &[String])
    -> (r: Result<TableOpResponse, WordCliError>)
    ensures
        r is Err ==> final(pkg)@ == old(pkg)@,
        part_text(old(pkg)@, document_part()) == Err::<Seq<char>, int>(0) ==> (r matches Err(e) && e is NotFound),
        part_text(old(pkg)@, document_part()) == Err::<Seq<char>, int>(1) ==> (r matches Err(e) && e is CorruptedDocument),
        part_text(old(pkg)@, document_part()) matches Ok(d) ==> match xml_events(d, false) {
            Err(m) => r matches Err(WordCliError::XmlParseError(x)) && x@ == m,
            Ok(_) => exists|ts: Seq<XmlToken>| #[trigger] parsed_as(d, false, ts)
                && if row_insert(ts, target_tbl_idx, target_row_idx, cells@).1 {
                &&& r matches Ok(resp)
                &&& table_op_ok(resp, "insert-row"@, target_tbl_idx, file_path@,
                    "已在表格 "@ + decimal(target_tbl_idx as nat) + " 的行 "@ + decimal(target_row_idx as nat) + " 插入新行"@)
                &&& final(pkg)@ == old(pkg)@.insert(document_part(),
                    encode_utf8(row_insert(ts, target_tbl_idx, target_row_idx, cells@).0))
            } else {
                r matches Err(WordCliError::InvalidParameter(x))
                    && x@ == "插入行索引越界: 行索引 "@ + decimal(target_row_idx as nat) + " 超出表格总行数 "@
                    + decimal(row_insert(ts, target_tbl_idx, target_row_idx, cells@).2)
            },
        },
{
    let doc = pkg.get_text("word/document.xml")?;
    let ts = match tokenize(doc.as_str(), false) {
        Ok(ts) => ts,
        Err(m) => return Err(WordCliError::XmlParseError(m)),
    };
    assert(parsed_as(doc@, false, ts@));
    let rx = str_chars(build_row_xml(cells).as_str());
    let (out, inserted, passed) = insert_row_tokens(&ts, target_tbl_idx, target_row_idx, rx.as_slice());
    if !inserted {
        let mut msg = "插入行索引越界: 行索引 ".to_owned();
        push_decimal(&mut msg, target_row_idx);
        push_str(&mut msg, " 超出表格总行数 ");
        push_decimal(&mut msg, passed);
        assert(!row_insert(ts@, target_tbl_idx, target_row_idx, cells@).1);
        return Err(WordCliError::InvalidParameter(msg));
    }
    pkg.set_text("word/document.xml", string_from_chars(out.as_slice()));
    assert(pkg@ == old(pkg)@.insert(document_part(), encode_utf8(row_insert(ts@, target_tbl_idx, target_row_idx, cells@).0)));
    let mut msg = "已在表格 ".to_owned();
    push_decimal(&mut msg, target_tbl_idx);
    push_str(&mut msg, " 的行 ");
    push_decimal(&mut msg, target_row_idx);
    push_str(&mut msg, " 插入新行");
    Ok(TableOpResponse {
        status: "success".to_owned(),
        command: "insert-row".to_owned(),
        table_index: target_tbl_idx,
        file: file_path.to_owned(),
        message: msg,
    })
}

/// The text of the main part after a row deletion, and whether the row was found.
pub open spec fn row_delete(ts: Seq<XmlToken>, tt: usize, rt: usize) -> (Seq<char>, bool) {
    row_delete_fold(ts, 0, tt as nat, rt as nat, 0, false, 0, false, false)
}

/// Deletes row `target_row_idx` (from 0) of table `target_tbl_idx`. The
/// caller writes the package out.
pub fn delete_table_row(pkg: &mut DocxPackage, file_path: &str, target_tbl_idx: usize, target_row_idx: usize)
    -> (r: Result<TableOpResponse, WordCliError>)
    ensures
        r is Err ==> final(pkg)@ == old(pkg)@,
        part_text(old(pkg)@, document_part()) == Err::<Seq<char>, int>(0) ==> (r matches Err(e) && e is NotFound),
        part_text(old(pkg)@, document_part()) == Err::<Seq<char>, int>(1) ==> (r matches Err(e) && e is CorruptedDocument),
        part_text(old(pkg)@, document_part()) matches Ok(d) ==> match xml_events(d, false) {
            Err(m) => r matches Err(WordCliError::XmlParseError(x)) && x@ == m,
            Ok(_) => exists|ts: Seq<XmlToken>| #[trigger] parsed_as(d, false, ts) && if row_delete(ts, target_tbl_idx, target_row_idx).1 {
                &&& r matches Ok(resp)
                &&& table_op_ok(resp, "delete-row"@, target_tbl_idx, file_path@,
                    "已删除表格 "@ + decimal(target_tbl_idx as nat) + " 的行 "@ + decimal(target_row_idx as nat))
                &&& final(pkg)@ == old(pkg)@.insert(document_part(), encode_utf8(row_delete(ts, target_tbl_idx, target_row_idx).0))
            } else {
                r matches Err(WordCliError::InvalidParameter(x))
                    && x@ == "要删除的行不存在: 行索引 "@ + decimal(target_row_idx as nat)
            },
        },
{
    let doc = pkg.get_text("word/document.xml")?;
    let ts = match tokenize(doc.as_str(), false) {
        Ok(ts) => ts,
        Err(m) => return Err(WordCliError::XmlParseError(m)),
    };
    assert(parsed_as(doc@, false, ts@));
    let (out, deleted) = delete_row_tokens(&ts, target_tbl_idx, target_row_idx);
    if !deleted {
        let mut msg = "要删除的行不存在: 行索引 ".to_owned();
        push_decimal(&mut msg, target_row_idx);
        assert(!row_delete(ts@, target_tbl_idx, target_row_idx).1);
        return Err(WordCliError::InvalidParameter(msg));
    }
    pkg.set_text("word/document.xml", string_from_chars(out.as_slice()));
    assert(pkg@ == old(pkg)@.insert(document_part(), encode_utf8(row_delete(ts@, target_tbl_idx, target_row_idx).0)));
    let mut msg = "已删除表格 ".to_owned();
    push_decimal(&mut msg, target_tbl_idx);
    push_str(&mut msg, " 的行 ");
    push_decimal(&mut msg, target_row_idx);
    Ok(TableOpResponse {
        status: "success".to_owned(),
        command: "delete-row".to_owned(),
        table_index: target_tbl_idx,
        file: file_path.to_owned(),
        message: msg,
    })
}

} // verus!
