use vstd::prelude::*;

use crate::pdf::extract::has_sub;
use crate::text::{contains_str, decimal, push_decimal, push_str, str_chars, string_from_chars, strings_view, trim, trim_chars};
use crate::unicode::{lowercase, to_lowercase};
use crate::word::error::WordCliError;
use crate::word::package::{document_part, part_text, DocxPackage};
use crate::word::xml::{attr_value, get_attr, is_tag, parsed_as, tag_is, tokenize, xml_events, XmlKind, XmlToken};

verus! {

/// Counts over the whole document.
pub struct SummaryInfo {
    pub total_paragraphs: usize,
    pub total_tables: usize,
    pub total_images: usize,
    pub total_highlights: usize,
    pub total_sections: usize,
}

/// A heading paragraph: its level, trimmed text, position and style.
pub struct OutlineItem {
    pub level: u8,
    pub text: String,
    pub para_idx: usize,
    pub style_id: String,
}

/// A table: its position among tables, its number of rows, the number of
/// cells of its first row and their trimmed text.
pub struct TableOverview {
    pub index: usize,
    pub rows: usize,
    pub cols: usize,
    pub preview_first_row: Vec<String>,
}

/// A highlighted run: its paragraph, colour and text.
pub struct HighlightItem {
    pub para_idx: usize,
    pub color: String,
    pub text: String,
}

/// A picture: its position among pictures, relationship id, file name
/// (from the relationships, or `image_N.bin`), and the number of the
/// `extent` element that gave its size.
pub struct ImageRef {
    pub index: usize,
    pub rel_id: String,
    pub filename: String,
    pub extent: usize,
}

/// What an inspection reports; parts not asked for are left out.
pub struct InspectResponse {
    pub status: String,
    pub summary: Option<SummaryInfo>,
    pub outline: Option<Vec<OutlineItem>>,
    pub tables: Option<Vec<TableOverview>>,
    pub images: Option<Vec<ImageRef>>,
    pub highlights: Option<Vec<HighlightItem>>,
}

/// The target of the last relationship with that id.
pub open spec fn rel_lookup(rels: Seq<(Seq<char>, Seq<char>)>, id: Seq<char>) -> Option<Seq<char>>
    decreases rels.len(),
{
    if rels.len() == 0 {
        None
    } else if rels.last().0 == id {
        Some(rels.last().1)
    } else {
        rel_lookup(rels.drop_last(), id)
    }
}

/// The heading level a style id names: its lowercase form holds
/// `headingN` or `heading N`, or both the digit N and `标题`, for N from 1
/// to 6, the smallest N first.
pub open spec fn heading_level(style: Seq<char>) -> Option<u8> {
    let l = lowercase(style);
    if has_sub(l, "heading1"@) || has_sub(l, "heading 1"@) || (has_sub(l, "1"@) && has_sub(l, "标题"@)) {
        Some(1u8)
    } else if has_sub(l, "heading2"@) || has_sub(l, "heading 2"@) || (has_sub(l, "2"@) && has_sub(l, "标题"@)) {
        Some(2u8)
    } else if has_sub(l, "heading3"@) || has_sub(l, "heading 3"@) || (has_sub(l, "3"@) && has_sub(l, "标题"@)) {
        Some(3u8)
    } else if has_sub(l, "heading4"@) || has_sub(l, "heading 4"@) || (has_sub(l, "4"@) && has_sub(l, "标题"@)) {
        Some(4u8)
    } else if has_sub(l, "heading5"@) || has_sub(l, "heading 5"@) || (has_sub(l, "5"@) && has_sub(l, "标题"@)) {
        Some(5u8)
    } else if has_sub(l, "heading6"@) || has_sub(l, "heading 6"@) || (has_sub(l, "6"@) && has_sub(l, "标题"@)) {
        Some(6u8)
    } else {
        None
    }
}

fn level_matches(l: &[char], n: &str, spaced: &str, digit: &str) -> (b: bool)
    ensures
        b == (has_sub(l@, n@) || has_sub(l@, spaced@) || (has_sub(l@, digit@) && has_sub(l@, "标题"@))),
{
    contains_str(l, n) || contains_str(l, spaced) || (contains_str(l, digit) && contains_str(l, "标题"))
}

/// The heading level of a style id.
pub fn detect_heading_level(style_id: &str) -> (r: Option<u8>)
    ensures
        r == heading_level(style_id@),
{
    let l = str_chars(to_lowercase(style_id).as_str());
    if level_matches(l.as_slice(), "heading1", "heading 1", "1") {
        Some(1)
    } else if level_matches(l.as_slice(), "heading2", "heading 2", "2") {
        Some(2)
    } else if level_matches(l.as_slice(), "heading3", "heading 3", "3") {
        Some(3)
    } else if level_matches(l.as_slice(), "heading4", "heading 4", "4") {
        Some(4)
    } else if level_matches(l.as_slice(), "heading5", "heading 5", "5") {
        Some(5)
    } else if level_matches(l.as_slice(), "heading6", "heading 6", "6") {
        Some(6)
    } else {
        None
    }
}

/// An outline entry as plain values.
pub type OutlineView = (u8, Seq<char>, nat, Seq<char>);
/// A table overview as plain values.
pub type TableView = (nat, nat, nat, Seq<Seq<char>>);
/// A picture as plain values.
pub type ImageView = (nat, Seq<char>, Seq<char>, nat);
/// A highlighted run as plain values.
pub type HighlightView = (nat, Seq<char>, Seq<char>);

/// Where a reading of the main part stands and what it has gathered.
#[verifier::ext_equal]
pub struct InspState {
    pub para_idx: nat,
    pub sections: nat,
    pub in_para: bool,
    pub para_text: Seq<char>,
    pub style: Seq<char>,
    pub in_run: bool,
    pub highlight: Option<Seq<char>>,
    pub run_text: Seq<char>,
    pub in_table: bool,
    pub table_rows: nat,
    pub first_row: Seq<Seq<char>>,
    pub in_row: bool,
    pub in_cell: bool,
    pub cell_text: Seq<char>,
    pub extents: nat,
    pub outline: Seq<OutlineView>,
    pub tables: Seq<TableView>,
    pub images: Seq<ImageView>,
    pub highlights: Seq<HighlightView>,
}

pub open spec fn insp_start() -> InspState {
    InspState {
        para_idx: 0,
        sections: 0,
        in_para: false,
        para_text: Seq::empty(),
        style: Seq::empty(),
        in_run: false,
        highlight: None,
        run_text: Seq::empty(),
        in_table: false,
        table_rows: 0,
        first_row: Seq::empty(),
        in_row: false,
        in_cell: false,
        cell_text: Seq::empty(),
        extents: 0,
        outline: Seq::empty(),
        tables: Seq::empty(),
        images: Seq::empty(),
        highlights: Seq::empty(),
    }
}

/// The pictures after the `embed` attributes among the first `k`
/// attributes of a `blip`: each one names the last picture when that
/// picture has no relationship id yet, and its file name comes from the
/// relationships when they know the id.
pub open spec fn blip_fold(images: Seq<ImageView>, attrs: Seq<(String, String)>, rels: Seq<(Seq<char>, Seq<char>)>, k: nat)
    -> Seq<ImageView>
    decreases k,
{
    if k == 0 || k > attrs.len() {
        images
    } else {
        let im = blip_fold(images, attrs, rels, (k - 1) as nat);
        let a = attrs[k - 1];
        if a.0@ == "embed"@ && im.len() > 0 && im.last().1.len() == 0 {
            let last = im.last();
            im.update(im.len() - 1, (last.0, a.1@, match rel_lookup(rels, a.1@) {
                Some(t) => t,
                None => last.2,
            }, last.3))
        } else {
            im
        }
    }
}

/// The name of the picture number `i` when no relationship names it.
pub open spec fn image_default_name(i: nat) -> Seq<char> {
    "image_"@ + decimal(i) + ".bin"@
}

/// What an `extent` element does: when the caller found its size positive
/// (`accept`), a new picture; the element is counted either way.
pub open spec fn extent_step(s: InspState, accept: bool) -> InspState {
    let images = if accept {
        s.images.push((s.images.len(), Seq::empty(), image_default_name(s.images.len()), s.extents))
    } else {
        s.images
    };
    InspState { images, extents: s.extents + 1, ..s }
}

/// Whether the caller found extent number `i` of positive size.
pub open spec fn accepted(flags: Seq<bool>, i: nat) -> bool {
    i < flags.len() && flags[i as int]
}

/// What one token does to the reading.
pub open spec fn insp_step(s: InspState, t: XmlToken, flags: Seq<bool>, rels: Seq<(Seq<char>, Seq<char>)>) -> InspState {
    let n = t.name@;
    if t.kind == XmlKind::Start && n == "p"@ {
        InspState { in_para: true, para_text: Seq::empty(), style: Seq::empty(), ..s }
    } else if (t.kind == XmlKind::Start || t.kind == XmlKind::Empty) && n == "pStyle"@ && s.in_para {
        match attr_value(t.attrs@, "val"@) {
            Some(v) => InspState { style: v, ..s },
            None => s,
        }
    } else if t.kind == XmlKind::Start && n == "r"@ {
        InspState { in_run: true, highlight: None, run_text: Seq::empty(), ..s }
    } else if (t.kind == XmlKind::Start || t.kind == XmlKind::Empty) && n == "highlight"@ && s.in_run {
        match attr_value(t.attrs@, "val"@) {
            Some(v) => InspState { highlight: Some(v), ..s },
            None => s,
        }
    } else if t.kind == XmlKind::Start && n == "tbl"@ {
        InspState { in_table: true, table_rows: 0, first_row: Seq::empty(), ..s }
    } else if t.kind == XmlKind::Start && n == "tr"@ && s.in_table {
        InspState { in_row: true, table_rows: s.table_rows + 1, ..s }
    } else if t.kind == XmlKind::Start && n == "tc"@ && s.in_row {
        InspState { in_cell: true, cell_text: Seq::empty(), ..s }
    } else if (t.kind == XmlKind::Start || t.kind == XmlKind::Empty) && n == "extent"@ {
        extent_step(s, accepted(flags, s.extents))
    } else if (t.kind == XmlKind::Start || t.kind == XmlKind::Empty) && n == "blip"@ {
        InspState { images: blip_fold(s.images, t.attrs@, rels, t.attrs@.len()), ..s }
    } else if (t.kind == XmlKind::Start || t.kind == XmlKind::Empty) && n == "sectPr"@ {
        InspState { sections: s.sections + 1, ..s }
    } else if t.kind == XmlKind::Text {
        let x = t.text@;
        InspState {
            run_text: if s.in_run { s.run_text + x } else { s.run_text },
            para_text: if s.in_para { s.para_text + x } else { s.para_text },
            cell_text: if s.in_cell { s.cell_text + x } else { s.cell_text },
            ..s
        }
    } else if t.kind == XmlKind::End && n == "r"@ {
        let hs = match s.highlight {
            Some(c) => if trim(s.run_text).len() > 0 {
                s.highlights.push((s.para_idx, c, s.run_text))
            } else {
                s.highlights
            },
            None => s.highlights,
        };
        InspState { in_run: false, highlight: None, highlights: hs, ..s }
    } else if t.kind == XmlKind::End && n == "p"@ {
        let ol = match heading_level(s.style) {
            Some(level) => if trim(s.para_text).len() > 0 {
                s.outline.push((level, trim(s.para_text), s.para_idx, s.style))
            } else {
                s.outline
            },
            None => s.outline,
        };
        InspState { in_para: false, outline: ol, para_idx: s.para_idx + 1, ..s }
    } else if t.kind == XmlKind::End && n == "tc"@ && s.in_row {
        InspState {
            in_cell: false,
            first_row: if s.table_rows == 1 { s.first_row.push(trim(s.cell_text)) } else { s.first_row },
            ..s
        }
    } else if t.kind == XmlKind::End && n == "tr"@ && s.in_table {
        InspState { in_row: false, ..s }
    } else if t.kind == XmlKind::End && n == "tbl"@ {
        InspState {
            in_table: false,
            tables: s.tables.push((s.tables.len(), s.table_rows, s.first_row.len(), s.first_row)),
            ..s
        }
    } else {
        s
    }
}

/// The reading after the tokens from `k` on.
pub open spec fn insp_fold(ts: Seq<XmlToken>, k: int, s: InspState, flags: Seq<bool>, rels: Seq<(Seq<char>, Seq<char>)>) -> InspState
    decreases ts.len() - k,
{
    if k < 0 || k >= ts.len() {
        s
    } else {
        insp_fold(ts, k + 1, insp_step(s, ts[k], flags, rels), flags, rels)
    }
}

pub open spec fn outline_view(o: OutlineItem) -> OutlineView {
    (o.level, o.text@, o.para_idx as nat, o.style_id@)
}

pub open spec fn table_view(t: TableOverview) -> TableView {
    (t.index as nat, t.rows as nat, t.cols as nat, strings_view(t.preview_first_row@))
}

pub open spec fn image_view(i: ImageRef) -> ImageView {
    (i.index as nat, i.rel_id@, i.filename@, i.extent as nat)
}

pub open spec fn highlight_view(h: HighlightItem) -> HighlightView {
    (h.para_idx as nat, h.color@, h.text@)
}

pub open spec fn rels_view(v: Seq<(String, String)>) -> Seq<(Seq<char>, Seq<char>)> {
    v.map_values(|p: (String, String)| (p.0@, p.1@))
}

pub open spec fn opt_seq(o: Option<String>) -> Option<Seq<char>> {
    match o {
        Some(s) => Some(s@),
        None => None,
    }
}

/// The reading state with executable fields.
pub struct InspWriter {
    pub para_idx: usize,
    pub sections: usize,
    pub in_para: bool,
    pub para_text: Vec<char>,
    pub style: Vec<char>,
    pub in_run: bool,
    pub highlight: Option<String>,
    pub run_text: Vec<char>,
    pub in_table: bool,
    pub table_rows: usize,
    pub first_row: Vec<String>,
    pub in_row: bool,
    pub in_cell: bool,
    pub cell_text: Vec<char>,
    pub extents: usize,
    pub outline: Vec<OutlineItem>,
    pub tables: Vec<TableOverview>,
    pub images: Vec<ImageRef>,
    pub highlights: Vec<HighlightItem>,
}

impl InspWriter {
    pub open spec fn state(&self) -> InspState {
        InspState {
            para_idx: self.para_idx as nat,
            sections: self.sections as nat,
            in_para: self.in_para,
            para_text: self.para_text@,
            style: self.style@,
            in_run: self.in_run,
            highlight: opt_seq(self.highlight),
            run_text: self.run_text@,
            in_table: self.in_table,
            table_rows: self.table_rows as nat,
            first_row: strings_view(self.first_row@),
            in_row: self.in_row,
            in_cell: self.in_cell,
            cell_text: self.cell_text@,
            extents: self.extents as nat,
            outline: self.outline@.map_values(|o: OutlineItem| outline_view(o)),
            tables: self.tables@.map_values(|t: TableOverview| table_view(t)),
            images: self.images@.map_values(|i: ImageRef| image_view(i)),
            highlights: self.highlights@.map_values(|h: HighlightItem| highlight_view(h)),
        }
    }

    /// Every counter can still grow by one.
    pub open spec fn room(&self) -> bool {
        &&& self.para_idx < usize::MAX
        &&& self.sections < usize::MAX
        &&& self.table_rows < usize::MAX
        &&& self.extents < usize::MAX
        &&& self.images@.len() < usize::MAX
    }
}

fn rel_lookup_exec(rels: &Vec<(String, String)>, id: &String) -> (r: Option<String>)
    ensures
        opt_seq(r) == rel_lookup(rels_view(rels@), id@),
{
    let key = str_chars(id.as_str());
    let mut j = rels.len();
    assert(rels_view(rels@).take(rels.len() as int) == rels_view(rels@));
    while j > 0
        invariant
            j <= rels.len(),
            key@ == id@,
            rel_lookup(rels_view(rels@), id@) == rel_lookup(rels_view(rels@).take(j as int), id@),
        decreases j,
    {
        assert(rels_view(rels@).take(j as int).drop_last() == rels_view(rels@).take(j - 1));
        if crate::text::chars_eq(str_chars(rels[j - 1].0.as_str()).as_slice(), key.as_slice()) {
            return Some(rels[j - 1].1.clone());
        }
        j -= 1;
    }
    None
}

fn blip_exec(w: &mut InspWriter, attrs: &Vec<(String, String)>, rels: &Vec<(String, String)>)
    ensures
        final(w).state() =~= (InspState {
            images: blip_fold(old(w).state().images, attrs@, rels_view(rels@), attrs@.len()),
            ..old(w).state()
        }),
        final(w).images@.len() == old(w).images@.len(),
        final(w).room() == old(w).room(),
{
    let ghost im0 = old(w).state().images;
    let mut i: usize = 0;
    while i < attrs.len()
        invariant
            i <= attrs.len(),
            w.state() =~= (InspState { images: blip_fold(im0, attrs@, rels_view(rels@), i as nat), ..old(w).state() }),
            w.images@.len() == old(w).images@.len(),
            w.para_idx == old(w).para_idx && w.sections == old(w).sections && w.table_rows == old(w).table_rows
                && w.extents == old(w).extents,
        decreases attrs.len() - i,
    {
        let n = w.images.len();
        if crate::text::chars_eq(str_chars(attrs[i].0.as_str()).as_slice(), str_chars("embed").as_slice()) && n > 0
            && w.images[n - 1].rel_id.as_str().is_empty() {
            let rid = attrs[i].1.clone();
            let fname = match rel_lookup_exec(rels, &rid) {
                Some(t) => t,
                None => w.images[n - 1].filename.clone(),
            };
            let ghost before = w.images@.map_values(|x: ImageRef| image_view(x));
            let item = ImageRef { index: w.images[n - 1].index, rel_id: rid, filename: fname, extent: w.images[n - 1].extent };
            w.images.set(n - 1, item);
            assert(w.images@.map_values(|x: ImageRef| image_view(x)) == before.update(n - 1, image_view(item)));
        }
        i += 1;
    }
}

fn extent_exec(w: &mut InspWriter, flags: &Vec<bool>)
    requires
        old(w).room(),
    ensures
        final(w).state() =~= extent_step(old(w).state(), accepted(flags@, old(w).state().extents)),
        final(w).para_idx == old(w).para_idx && final(w).sections == old(w).sections && final(w).table_rows == old(w).table_rows,
        final(w).extents == old(w).extents + 1,
        final(w).images@.len() <= old(w).images@.len() + 1,
{
    let accept = w.extents < flags.len() && flags[w.extents];
    if accept {
        let idx = w.images.len();
        let mut name = "image_".to_owned();
        push_decimal(&mut name, idx);
        push_str(&mut name, ".bin");
        let ghost before = w.images@.map_values(|x: ImageRef| image_view(x));
        let item = ImageRef { index: idx, rel_id: String::new(), filename: name, extent: w.extents };
        w.images.push(item);
        assert(w.images@.map_values(|x: ImageRef| image_view(x)) == before.push(image_view(item)));
    }
    w.extents = w.extents + 1;
}

fn end_run_exec(w: &mut InspWriter)
    ensures
        final(w).state() =~= ({
            let s = old(w).state();
            let hs = match s.highlight {
                Some(c) => if trim(s.run_text).len() > 0 {
                    s.highlights.push((s.para_idx, c, s.run_text))
                } else {
                    s.highlights
                },
                None => s.highlights,
            };
            InspState { in_run: false, highlight: None, highlights: hs, ..s }
        }),
        final(w).para_idx == old(w).para_idx && final(w).sections == old(w).sections && final(w).table_rows == old(w).table_rows
            && final(w).extents == old(w).extents && final(w).images@.len() == old(w).images@.len(),
{
    w.in_run = false;
    let h = w.highlight.take();
    match h {
        Some(color) => {
            let tr = trim_chars(w.run_text.as_slice());
            if tr.len() > 0 {
                let ghost before = w.highlights@.map_values(|x: HighlightItem| highlight_view(x));
                let item = HighlightItem { para_idx: w.para_idx, color, text: string_from_chars(w.run_text.as_slice()) };
                w.highlights.push(item);
                assert(w.highlights@.map_values(|x: HighlightItem| highlight_view(x)) == before.push(highlight_view(item)));
            }
        },
        None => {},
    }
}

fn end_para_exec(w: &mut InspWriter)
    requires
        old(w).room(),
    ensures
        final(w).state() =~= ({
            let s = old(w).state();
            let ol = match heading_level(s.style) {
                Some(level) => if trim(s.para_text).len() > 0 {
                    s.outline.push((level, trim(s.para_text), s.para_idx, s.style))
                } else {
                    s.outline
                },
                None => s.outline,
            };
            InspState { in_para: false, outline: ol, para_idx: s.para_idx + 1, ..s }
        }),
        final(w).para_idx == old(w).para_idx + 1 && final(w).sections == old(w).sections && final(w).table_rows == old(w).table_rows
            && final(w).extents == old(w).extents && final(w).images@.len() == old(w).images@.len(),
{
    w.in_para = false;
    let style = string_from_chars(w.style.as_slice());
    match detect_heading_level(style.as_str()) {
        Some(level) => {
            let tr = trim_chars(w.para_text.as_slice());
            if tr.len() > 0 {
                let ghost before = w.outline@.map_values(|x: OutlineItem| outline_view(x));
                let item = OutlineItem { level, text: string_from_chars(tr.as_slice()), para_idx: w.para_idx, style_id: style };
                w.outline.push(item);
                assert(w.outline@.map_values(|x: OutlineItem| outline_view(x)) == before.push(outline_view(item)));
            }
        },
        None => {},
    }
    w.para_idx = w.para_idx + 1;
}

fn copy_strings(v: &Vec<String>) -> (r: Vec<String>)
    ensures
        strings_view(r@) == strings_view(v@),
{
    let mut r: Vec<String> = Vec::new();
    let mut i: usize = 0;
    while i < v.len()
        invariant
            i <= v.len(),
            strings_view(r@) == strings_view(v@).take(i as int),
        decreases v.len() - i,
    {
        let ghost before = strings_view(r@);
        r.push(v[i].clone());
        assert(strings_view(r@) == before.push(v@[i as int]@));
        assert(strings_view(v@).take(i + 1) == strings_view(v@).take(i as int).push(v@[i as int]@));
        i += 1;
    }
    assert(strings_view(v@).take(v.len() as int) == strings_view(v@));
    r
}

fn end_table_exec(w: &mut InspWriter)
    ensures
        final(w).state() =~= ({
            let s = old(w).state();
            InspState {
                in_table: false,
                tables: s.tables.push((s.tables.len(), s.table_rows, s.first_row.len(), s.first_row)),
                ..s
            }
        }),
        final(w).para_idx == old(w).para_idx && final(w).sections == old(w).sections && final(w).table_rows == old(w).table_rows
            && final(w).extents == old(w).extents && final(w).images@.len() == old(w).images@.len(),
{
    w.in_table = false;
    let idx = w.tables.len();
    let cols = w.first_row.len();
    let ghost before = w.tables@.map_values(|x: TableOverview| table_view(x));
    let item = TableOverview { index: idx, rows: w.table_rows, cols, preview_first_row: copy_strings(&w.first_row) };
    w.tables.push(item);
    assert(w.tables@.map_values(|x: TableOverview| table_view(x)) == before.push(table_view(item)));
}

fn text_exec(w: &mut InspWriter, text: &String)
    ensures
        final(w).state() =~= ({
            let s = old(w).state();
            let x = text@;
            InspState {
                run_text: if s.in_run { s.run_text + x } else { s.run_text },
                para_text: if s.in_para { s.para_text + x } else { s.para_text },
                cell_text: if s.in_cell { s.cell_text + x } else { s.cell_text },
                ..s
            }
        }),
        final(w).para_idx == old(w).para_idx && final(w).sections == old(w).sections && final(w).table_rows == old(w).table_rows
            && final(w).extents == old(w).extents && final(w).images@.len() == old(w).images@.len(),
{
    let x = str_chars(text.as_str());
    if w.in_run {
        crate::text::extend_chars(&mut w.run_text, x.as_slice());
    }
    if w.in_para {
        crate::text::extend_chars(&mut w.para_text, x.as_slice());
    }
    if w.in_cell {
        crate::text::extend_chars(&mut w.cell_text, x.as_slice());
    }
}

fn name_is(t: &XmlToken, n: &str) -> (b: bool)
    ensures
        b == (t.name@ == n@),
{
    crate::text::chars_eq(str_chars(t.name.as_str()).as_slice(), str_chars(n).as_slice())
}

fn insp_step_exec(w: &mut InspWriter, t: &XmlToken, flags: &Vec<bool>, rels: &Vec<(String, String)>)
    requires
        old(w).room(),
    ensures
        final(w).state() =~= insp_step(old(w).state(), *t, flags@, rels_view(rels@)),
        final(w).para_idx <= old(w).para_idx + 1 && final(w).sections <= old(w).sections + 1
            && final(w).table_rows <= old(w).table_rows + 1 && final(w).extents <= old(w).extents + 1
            && final(w).images@.len() <= old(w).images@.len() + 1,
{
    let start = t.kind == XmlKind::Start;
    let start_or_empty = t.kind == XmlKind::Start || t.kind == XmlKind::Empty;
    if start && name_is(t, "p") {
        w.in_para = true;
        w.para_text = Vec::new();
        w.style = Vec::new();
    } else if start_or_empty && name_is(t, "pStyle") && w.in_para {
        match get_attr(&t.attrs, "val") {
            Some(v) => {
                w.style = str_chars(v.as_str());
            },
            None => {},
        }
    } else if start && name_is(t, "r") {
        w.in_run = true;
        w.highlight = None;
        w.run_text = Vec::new();
    } else if start_or_empty && name_is(t, "highlight") && w.in_run {
        match get_attr(&t.attrs, "val") {
            Some(v) => {
                w.highlight = Some(v);
            },
            None => {},
        }
    } else if start && name_is(t, "tbl") {
        w.in_table = true;
        w.table_rows = 0;
        w.first_row = Vec::new();
        assert(strings_view(w.first_row@) =~= Seq::<Seq<char>>::empty());
    } else if start && name_is(t, "tr") && w.in_table {
        w.in_row = true;
        w.table_rows = w.table_rows + 1;
    } else if start && name_is(t, "tc") && w.in_row {
        w.in_cell = true;
        w.cell_text = Vec::new();
    } else if start_or_empty && name_is(t, "extent") {
        extent_exec(w, flags);
    } else if start_or_empty && name_is(t, "blip") {
        blip_exec(w, &t.attrs, rels);
    } else if start_or_empty && name_is(t, "sectPr") {
        w.sections = w.sections + 1;
    } else if t.kind == XmlKind::Text {
        text_exec(w, &t.text);
    } else if t.kind == XmlKind::End && name_is(t, "r") {
        end_run_exec(w);
    } else if t.kind == XmlKind::End && name_is(t, "p") {
        end_para_exec(w);
    } else if t.kind == XmlKind::End && name_is(t, "tc") && w.in_row {
        w.in_cell = false;
        if w.table_rows == 1 {
            let tr = trim_chars(w.cell_text.as_slice());
            let ghost before = strings_view(w.first_row@);
            w.first_row.push(string_from_chars(tr.as_slice()));
            assert(strings_view(w.first_row@) == before.push(tr@));
        }
    } else if t.kind == XmlKind::End && name_is(t, "tr") && w.in_table {
        w.in_row = false;
    } else if t.kind == XmlKind::End && name_is(t, "tbl") {
        end_table_exec(w);
    }
}

/// The relationships that tokens hold: the id and target of each
/// `Relationship` tag that has both, non-empty, in order.
pub open spec fn rel_pairs(ts: Seq<XmlToken>) -> Seq<(Seq<char>, Seq<char>)>
    decreases ts.len(),
{
    if ts.len() == 0 {
        Seq::empty()
    } else {
        let rest = rel_pairs(ts.drop_last());
        let t = ts.last();
        if is_tag(t, XmlKind::Start, "Relationship"@) || is_tag(t, XmlKind::Empty, "Relationship"@) {
            match (attr_value(t.attrs@, "Id"@), attr_value(t.attrs@, "Target"@)) {
                (Some(i), Some(g)) => if i.len() > 0 && g.len() > 0 { rest.push((i, g)) } else { rest },
                _ => rest,
            }
        } else {
            rest
        }
    }
}

/// `rts` are the tokens of the main part's relationships: what quick-xml
/// reads from that part (blank text kept), or nothing when the part is
/// missing, not UTF-8 or not well-formed.
pub open spec fn rels_tokens(m: Map<Seq<char>, Seq<u8>>, rts: Seq<XmlToken>) -> bool {
    match part_text(m, "word/_rels/document.xml.rels"@) {
        Ok(x) => if xml_events(x, false) is Ok { parsed_as(x, false, rts) } else { rts.len() == 0 },
        Err(_) => rts.len() == 0,
    }
}

/// The relationships of the main part (id and target of each
/// `Relationship` with both), in order; none when the part is missing or
/// not well-formed.
pub fn parse_relationships(pkg: &DocxPackage) -> (r: Vec<(String, String)>)
    ensures
        exists|rts: Seq<XmlToken>| #[trigger] rels_tokens(pkg@, rts) && rels_view(r@) == rel_pairs(rts),
        forall|i: int| 0 <= i < r@.len() ==> (#[trigger] r@[i]).0@.len() > 0 && r@[i].1@.len() > 0,
{
    let mut out: Vec<(String, String)> = Vec::new();
    let xml = match pkg.get_text("word/_rels/document.xml.rels") {
        Ok(x) => x,
        Err(_) => {
            assert(rels_tokens(pkg@, Seq::<XmlToken>::empty()));
            assert(rels_view(out@) =~= rel_pairs(Seq::<XmlToken>::empty()));
            return out;
        },
    };
    let ts = match tokenize(xml.as_str(), false) {
        Ok(ts) => ts,
        Err(_) => {
            assert(rels_tokens(pkg@, Seq::<XmlToken>::empty()));
            assert(rels_view(out@) =~= rel_pairs(Seq::<XmlToken>::empty()));
            return out;
        },
    };
    assert(rels_tokens(pkg@, ts@));
    let mut k: usize = 0;
    assert(rels_view(out@) =~= rel_pairs(ts@.take(0)));
    while k < ts.len()
        invariant
            k <= ts.len(),
            rels_view(out@) == rel_pairs(ts@.take(k as int)),
            forall|i: int| 0 <= i < out@.len() ==> (#[trigger] out@[i]).0@.len() > 0 && out@[i].1@.len() > 0,
        decreases ts.len() - k,
    {
        let t = &ts[k];
        assert(ts@.take(k + 1).drop_last() == ts@.take(k as int));
        assert(ts@.take(k + 1).last() == ts@[k as int]);
        let ghost before = out@;
        if (tag_is(t, XmlKind::Start, "Relationship") || tag_is(t, XmlKind::Empty, "Relationship")) {
            let id = get_attr(&t.attrs, "Id");
            let target = get_attr(&t.attrs, "Target");
            match (id, target) {
                (Some(i), Some(g)) => {
                    if !i.as_str().is_empty() && !g.as_str().is_empty() {
                        out.push((i, g));
                        assert(rels_view(out@) =~= rels_view(before).push((out@.last().0@, out@.last().1@)));
                    }
                },
                _ => {},
            }
        }
        k += 1;
    }
    assert(ts@.take(ts.len() as int) == ts@);
    out
}

/// The attributes of each `extent` tag among the tokens, in order.
pub open spec fn extent_attrs(ts: Seq<XmlToken>) -> Seq<Seq<(Seq<char>, Seq<char>)>>
    decreases ts.len(),
{
    if ts.len() == 0 {
        Seq::empty()
    } else {
        let rest = extent_attrs(ts.drop_last());
        let t = ts.last();
        if is_tag(t, XmlKind::Start, "extent"@) || is_tag(t, XmlKind::Empty, "extent"@) {
            rest.push(rels_view(t.attrs@))
        } else {
            rest
        }
    }
}

pub open spec fn attr_lists_view(v: Seq<Vec<(String, String)>>) -> Seq<Seq<(Seq<char>, Seq<char>)>> {
    v.map_values(|a: Vec<(String, String)>| rels_view(a@))
}

/// The attributes of each `extent` element of the main part, in document
/// order (blank text around markup skipped): the caller reads the picture
/// sizes from them.
pub fn extent_attributes(pkg: &DocxPackage) -> (r: Result<Vec<Vec<(String, String)>>, WordCliError>)
    ensures
        part_text(pkg@, document_part()) is Err ==> (r matches Err(e) && e is NotFound
            && e->NotFound_0@ == "文档中未找到 word/document.xml 主体内容"@),
        part_text(pkg@, document_part()) matches Ok(d) ==> match xml_events(d, true) {
            Err(m) => r matches Err(WordCliError::XmlParseError(x)) && x@ == "解析 document.xml 结构失败: "@ + m,
            Ok(_) => r matches Ok(v) && exists|ts: Seq<XmlToken>| #[trigger] parsed_as(d, true, ts)
                && attr_lists_view(v@) == extent_attrs(ts),
        },
{
    let doc = match pkg.get_text("word/document.xml") {
        Ok(d) => d,
        Err(_) => {
            return Err(WordCliError::NotFound("文档中未找到 word/document.xml 主体内容".to_owned()));
        },
    };
    let ts = match tokenize(doc.as_str(), true) {
        Ok(ts) => ts,
        Err(m) => {
            let mut msg = "解析 document.xml 结构失败: ".to_owned();
            push_str(&mut msg, m.as_str());
            return Err(WordCliError::XmlParseError(msg));
        },
    };
    assert(parsed_as(doc@, true, ts@));
    let mut out: Vec<Vec<(String, String)>> = Vec::new();
    let mut k: usize = 0;
    assert(attr_lists_view(out@) =~= extent_attrs(ts@.take(0)));
    while k < ts.len()
        invariant
            k <= ts.len(),
            attr_lists_view(out@) == extent_attrs(ts@.take(k as int)),
        decreases ts.len() - k,
    {
        let t = &ts[k];
        assert(ts@.take(k + 1).drop_last() == ts@.take(k as int));
        assert(ts@.take(k + 1).last() == ts@[k as int]);
        let ghost before = out@;
        if tag_is(t, XmlKind::Start, "extent") || tag_is(t, XmlKind::Empty, "extent") {
            let a = clone_attrs(&t.attrs);
            out.push(a);
            assert(attr_lists_view(out@) =~= attr_lists_view(before).push(rels_view(t.attrs@)));
        }
        k += 1;
    }
    assert(ts@.take(ts.len() as int) == ts@);
    Ok(out)
}

fn clone_attrs(a: &Vec<(String, String)>) -> (r: Vec<(String, String)>)
    ensures
        rels_view(r@) == rels_view(a@),
{
    let mut out: Vec<(String, String)> = Vec::new();
    let mut i: usize = 0;
    while i < a.len()
        invariant
            i <= a.len(),
            rels_view(out@) == rels_view(a@.take(i as int)),
        decreases a.len() - i,
    {
        let ghost before = out@;
        out.push((a[i].0.clone(), a[i].1.clone()));
        assert(rels_view(out@) =~= rels_view(before).push((a@[i as int].0@, a@[i as int].1@)));
        assert(rels_view(a@.take(i + 1)) =~= rels_view(a@.take(i as int)).push((a@[i as int].0@, a@[i as int].1@)));
        i += 1;
    }
    assert(a@.take(a.len() as int) == a@);
    out
}

/// Reads the whole main part.
pub fn inspect_tokens(ts: &Vec<XmlToken>, flags: &Vec<bool>, rels: &Vec<(String, String)>) -> (w: InspWriter)
    ensures
        w.state() =~= insp_fold(ts@, 0, insp_start(), flags@, rels_view(rels@)),
{
    let mut w = InspWriter {
        para_idx: 0,
        sections: 0,
        in_para: false,
        para_text: Vec::new(),
        style: Vec::new(),
        in_run: false,
        highlight: None,
        run_text: Vec::new(),
        in_table: false,
        table_rows: 0,
        first_row: Vec::new(),
        in_row: false,
        in_cell: false,
        cell_text: Vec::new(),
        extents: 0,
        outline: Vec::new(),
        tables: Vec::new(),
        images: Vec::new(),
        highlights: Vec::new(),
    };
    assert(w.state() =~= insp_start()) by {
        assert(strings_view(w.first_row@) =~= Seq::<Seq<char>>::empty());
        assert(w.outline@.map_values(|o: OutlineItem| outline_view(o)) =~= Seq::<OutlineView>::empty());
        assert(w.tables@.map_values(|t: TableOverview| table_view(t)) =~= Seq::<TableView>::empty());
        assert(w.images@.map_values(|i: ImageRef| image_view(i)) =~= Seq::<ImageView>::empty());
        assert(w.highlights@.map_values(|h: HighlightItem| highlight_view(h)) =~= Seq::<HighlightView>::empty());
    }
    let mut k: usize = 0;
    while k < ts.len()
        invariant
            k <= ts.len(),
            w.para_idx <= k && w.sections <= k && w.table_rows <= k && w.extents <= k && w.images@.len() <= k,
            insp_fold(ts@, 0, insp_start(), flags@, rels_view(rels@)) == insp_fold(ts@, k as int, w.state(), flags@, rels_view(rels@)),
        decreases ts.len() - k,
    {
        insp_step_exec(&mut w, &ts[k], flags, rels);
        k += 1;
    }
    w
}

/// `resp` holds the parts that `only` asks for (`summary`, `outline`,
/// `tables`, `images`, `highlights`; all of them for anything else) of the
/// reading `s`; a document without section properties counts one section.
pub open spec fn inspect_matches(resp: InspectResponse, s: InspState, only: Option<Seq<char>>) -> bool {
    let all = !(only == Some("summary"@) || only == Some("outline"@) || only == Some("tables"@)
        || only == Some("images"@) || only == Some("highlights"@));
    &&& resp.status@ == "success"@
    &&& (all || only == Some("summary"@)) == resp.summary is Some
    &&& (all || only == Some("outline"@)) == resp.outline is Some
    &&& (all || only == Some("tables"@)) == resp.tables is Some
    &&& (all || only == Some("images"@)) == resp.images is Some
    &&& (all || only == Some("highlights"@)) == resp.highlights is Some
    &&& (resp.summary matches Some(m) ==> m.total_paragraphs == s.para_idx && m.total_tables == s.tables.len()
        && m.total_images == s.images.len() && m.total_highlights == s.highlights.len()
        && m.total_sections == (if s.sections == 0 { 1 } else { s.sections }))
    &&& (resp.outline matches Some(v) ==> v@.map_values(|o: OutlineItem| outline_view(o)) == s.outline)
    &&& (resp.tables matches Some(v) ==> v@.map_values(|t: TableOverview| table_view(t)) == s.tables)
    &&& (resp.images matches Some(v) ==> v@.map_values(|i: ImageRef| image_view(i)) == s.images)
    &&& (resp.highlights matches Some(v) ==> v@.map_values(|h: HighlightItem| highlight_view(h)) == s.highlights)
}

/// Inspects the main part: paragraphs, headings, tables, pictures,
/// highlighted runs and sections. `extent_ok` says, for each `extent`
/// element in order (see `extent_attributes`), whether the caller found
/// the picture's size positive.
pub fn inspect_document(pkg: &DocxPackage, only: Option<&str>, extent_ok: &Vec<bool>) -> (r: Result<InspectResponse, WordCliError>)
    ensures
        part_text(pkg@, document_part()) is Err ==> (r matches Err(e) && e is NotFound
            && e->NotFound_0@ == "文档中未找到 word/document.xml 主体内容"@),
        part_text(pkg@, document_part()) matches Ok(d) ==> match xml_events(d, true) {
            Err(m) => r matches Err(WordCliError::XmlParseError(x)) && x@ == "解析 document.xml 结构失败: "@ + m,
            Ok(_) => r matches Ok(resp) && exists|ts: Seq<XmlToken>, rts: Seq<XmlToken>|
                #[trigger] parsed_as(d, true, ts) && #[trigger] rels_tokens(pkg@, rts)
                && inspect_matches(resp, insp_fold(ts, 0, insp_start(), extent_ok@, rel_pairs(rts)),
                    crate::excel::writer::opt_name(only)),
        },
{
    let doc = match pkg.get_text("word/document.xml") {
        Ok(d) => d,
        Err(_) => {
            return Err(WordCliError::NotFound("文档中未找到 word/document.xml 主体内容".to_owned()));
        },
    };
    let rels = parse_relationships(pkg);
    let ts = match tokenize(doc.as_str(), true) {
        Ok(ts) => ts,
        Err(m) => {
            let mut msg = "解析 document.xml 结构失败: ".to_owned();
            push_str(&mut msg, m.as_str());
            return Err(WordCliError::XmlParseError(msg));
        },
    };
    assert(parsed_as(doc@, true, ts@));
    let w = inspect_tokens(&ts, extent_ok, &rels);
    let ghost st = w.state();
    let summary = SummaryInfo {
        total_paragraphs: w.para_idx,
        total_tables: w.tables.len(),
        total_images: w.images.len(),
        total_highlights: w.highlights.len(),
        total_sections: if w.sections == 0 { 1 } else { w.sections },
    };
    let o = match only {
        Some(x) => str_chars(x),
        None => Vec::new(),
    };
    proof {
        reveal_strlit("summary");
        reveal_strlit("outline");
        reveal_strlit("tables");
        reveal_strlit("images");
        reveal_strlit("highlights");
    }
    let is_some = only.is_some();
    let want_summary = is_some && crate::text::chars_eq(o.as_slice(), str_chars("summary").as_slice());
    let want_outline = is_some && crate::text::chars_eq(o.as_slice(), str_chars("outline").as_slice());
    let want_tables = is_some && crate::text::chars_eq(o.as_slice(), str_chars("tables").as_slice());
    let want_images = is_some && crate::text::chars_eq(o.as_slice(), str_chars("images").as_slice());
    let want_highlights = is_some && crate::text::chars_eq(o.as_slice(), str_chars("highlights").as_slice());
    let all = !(want_summary || want_outline || want_tables || want_images || want_highlights);
    let resp = InspectResponse {
        status: "success".to_owned(),
        summary: if all || want_summary { Some(summary) } else { None },
        outline: if all || want_outline { Some(w.outline) } else { None },
        tables: if all || want_tables { Some(w.tables) } else { None },
        images: if all || want_images { Some(w.images) } else { None },
        highlights: if all || want_highlights { Some(w.highlights) } else { None },
    };
    assert(inspect_matches(resp, st, crate::excel::writer::opt_name(only)));
    Ok(resp)
}

/// An inspection asked for one part (`summary`, `outline`, `tables`,
/// `images` or `highlights`) holds that part and no other.
pub proof fn law_selector_keeps_named_part(resp: InspectResponse, s: InspState, name: Seq<char>)
    requires
        name == "summary"@ || name == "outline"@ || name == "tables"@ || name == "images"@ || name == "highlights"@,
        inspect_matches(resp, s, Some(name)),
    ensures
        resp.summary is Some <==> name == "summary"@,
        resp.outline is Some <==> name == "outline"@,
        resp.tables is Some <==> name == "tables"@,
        resp.images is Some <==> name == "images"@,
        resp.highlights is Some <==> name == "highlights"@,
{
}

/// A report's parts as values.
pub open spec fn report_parts(resp: InspectResponse) -> (
    Option<SummaryInfo>,
    Option<Seq<OutlineView>>,
    Option<Seq<TableView>>,
    Option<Seq<ImageView>>,
    Option<Seq<HighlightView>>,
) {
    (
        resp.summary,
        match resp.outline { Some(v) => Some(v@.map_values(|o: OutlineItem| outline_view(o))), None => None },
        match resp.tables { Some(v) => Some(v@.map_values(|t: TableOverview| table_view(t))), None => None },
        match resp.images { Some(v) => Some(v@.map_values(|i: ImageRef| image_view(i))), None => None },
        match resp.highlights { Some(v) => Some(v@.map_values(|h: HighlightItem| highlight_view(h))), None => None },
    )
}

/// Of one reading of a document, a report asked for one part (`summary`,
/// `outline`, `tables`, `images` or `highlights`) holds that part as the
/// full report has it and no other part; a report asked for anything else
/// is the full report.
pub proof fn law_selected_part_of_full_report(full: InspectResponse, part: InspectResponse, s: InspState, only: Option<Seq<char>>)
    requires
        inspect_matches(full, s, None),
        inspect_matches(part, s, only),
    ensures
        ({
            let f = report_parts(full);
            let p = report_parts(part);
            &&& part.status@ == "success"@
            &&& p.0 == (if only == Some("summary"@) || !(only == Some("outline"@) || only == Some("tables"@) || only == Some("images"@) || only == Some("highlights"@)) { f.0 } else { None })
            &&& p.1 == (if only == Some("outline"@) || !(only == Some("summary"@) || only == Some("tables"@) || only == Some("images"@) || only == Some("highlights"@)) { f.1 } else { None })
            &&& p.2 == (if only == Some("tables"@) || !(only == Some("summary"@) || only == Some("outline"@) || only == Some("images"@) || only == Some("highlights"@)) { f.2 } else { None })
            &&& p.3 == (if only == Some("images"@) || !(only == Some("summary"@) || only == Some("outline"@) || only == Some("tables"@) || only == Some("highlights"@)) { f.3 } else { None })
            &&& p.4 == (if only == Some("highlights"@) || !(only == Some("summary"@) || only == Some("outline"@) || only == Some("tables"@) || only == Some("images"@)) { f.4 } else { None })
        }),
{
    reveal_strlit("summary");
    reveal_strlit("outline");
    reveal_strlit("tables");
    reveal_strlit("images");
    reveal_strlit("highlights");
    assert("summary"@ != "outline"@ && "summary"@ != "tables"@ && "summary"@ != "images"@ && "summary"@ != "highlights"@) by {
        assert("summary"@[0] != "outline"@[0] && "summary"@[0] != "tables"@[0] && "summary"@[0] != "images"@[0] && "summary"@[0] != "highlights"@[0]);
    }
    assert("outline"@ != "tables"@ && "outline"@ != "images"@ && "outline"@ != "highlights"@) by {
        assert("outline"@[0] != "tables"@[0] && "outline"@[0] != "images"@[0] && "outline"@[0] != "highlights"@[0]);
    }
    assert("tables"@ != "images"@ && "tables"@ != "highlights"@) by {
        assert("tables"@[0] != "images"@[0] && "tables"@[0] != "highlights"@[0]);
    }
    assert("images"@ != "highlights"@) by {
        assert("images"@[0] != "highlights"@[0]);
    }
    let f = full.summary.unwrap();
    if part.summary is Some {
        let m = part.summary.unwrap();
        assert(m == f);
    }
}

} // verus!
