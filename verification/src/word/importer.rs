use pulldown_cmark::{Event, Options, Parser, Tag};
use vstd::prelude::*;
use vstd::utf8::encode_utf8;

use crate::text::{decimal, find_last, occurs_at, insert_chars, insert_text, opt_view, push_decimal, push_str, rfind_str, str_chars, string_from_chars};
use crate::word::content::opt_str;
use crate::word::error::WordCliError;
use crate::word::package::{document_part, escape_spec, escape_xml, part_text, DocxPackage};

verus! {

/// The outcome of a Markdown import.
pub struct ImportResponse {
    pub status: String,
    pub command: String,
    pub input_file: String,
    pub output_file: String,
    pub template_used: Option<String>,
    pub message: String,
}

/// Which kind of Markdown event: the start or end of an element, text,
/// inline code, or anything else.
#[derive(PartialEq, Eq, Structural, Clone, Copy)]
pub enum MdClass {
    Start,
    End,
    Text,
    Code,
    Other,
}

/// The element that a start or end event opens or closes.
#[derive(PartialEq, Eq, Structural, Clone, Copy)]
pub enum MdTag {
    Heading,
    Paragraph,
    Strong,
    Emphasis,
    Table,
    TableHead,
    TableRow,
    TableCell,
    Other,
}

/// The kinds of the events that pulldown-cmark reads from a Markdown text
/// with tables and strikethrough enabled.
pub uninterp spec fn markdown_classes(md: Seq<char>) -> Seq<MdClass>;

/// The elements of those events (`Other` for events without one).
pub uninterp spec fn markdown_tags(md: Seq<char>) -> Seq<MdTag>;

/// The heading level of each of those events (0 where it starts no heading).
pub uninterp spec fn markdown_levels(md: Seq<char>) -> Seq<u32>;

/// The text of each of those events (empty but for text and inline code).
pub uninterp spec fn markdown_texts(md: Seq<char>) -> Seq<Seq<char>>;

/// `pulldown_cmark::Parser::new_ext` (tables and strikethrough on), each
/// event taken by its kind.
#[verifier::external_body]
fn md_event_classes(md: &str) -> (r: Vec<MdClass>)
    ensures
        r@ == markdown_classes(md@),
{
    Parser::new_ext(md, Options::ENABLE_TABLES | Options::ENABLE_STRIKETHROUGH).map(|e| match e {
        Event::Start(_) => MdClass::Start,
        Event::End(_) => MdClass::End,
        Event::Text(_) => MdClass::Text,
        Event::Code(_) => MdClass::Code,
        _ => MdClass::Other,
    }).collect()
}

/// The same events, each taken by the element it opens or closes.
#[verifier::external_body]
fn md_event_tags(md: &str) -> (r: Vec<MdTag>)
    ensures
        r@ == markdown_tags(md@),
{
    Parser::new_ext(md, Options::ENABLE_TABLES | Options::ENABLE_STRIKETHROUGH).map(|e| match e {
        Event::Start(t) | Event::End(t) => match t {
            Tag::Heading(..) => MdTag::Heading,
            Tag::Paragraph => MdTag::Paragraph,
            Tag::Strong => MdTag::Strong,
            Tag::Emphasis => MdTag::Emphasis,
            Tag::Table(_) => MdTag::Table,
            Tag::TableHead => MdTag::TableHead,
            Tag::TableRow => MdTag::TableRow,
            Tag::TableCell => MdTag::TableCell,
            _ => MdTag::Other,
        },
        _ => MdTag::Other,
    }).collect()
}

/// The same events, each taken by the level of the heading it starts.
#[verifier::external_body]
fn md_event_levels(md: &str) -> (r: Vec<u32>)
    ensures
        r@ == markdown_levels(md@),
{
    Parser::new_ext(md, Options::ENABLE_TABLES | Options::ENABLE_STRIKETHROUGH).map(|e| match e {
        Event::Start(Tag::Heading(level, _, _)) => level as u32,
        _ => 0,
    }).collect()
}

/// The same events, each taken by its text.
#[verifier::external_body]
fn md_event_texts(md: &str) -> (r: Vec<String>)
    ensures
        r@.map_values(|s: String| s@) == markdown_texts(md@),
{
    Parser::new_ext(md, Options::ENABLE_TABLES | Options::ENABLE_STRIKETHROUGH).map(|e| match e {
        Event::Text(t) | Event::Code(t) => t.to_string(),
        _ => String::new(),
    }).collect()
}

/// One Markdown event as plain values: kind, element, heading level, text.
pub type MdToken = (MdClass, MdTag, u32, Seq<char>);

/// The events of a Markdown text, position by position.
pub open spec fn markdown_tokens(md: Seq<char>) -> Seq<MdToken> {
    let c = markdown_classes(md);
    let t = markdown_tags(md);
    let l = markdown_levels(md);
    let x = markdown_texts(md);
    let n = if c.len() <= t.len() && c.len() <= l.len() && c.len() <= x.len() {
        c.len()
    } else if t.len() <= l.len() && t.len() <= x.len() {
        t.len()
    } else if l.len() <= x.len() {
        l.len()
    } else {
        x.len()
    };
    Seq::new(n, |i: int| (c[i], t[i], l[i], x[i]))
}

/// Where a rendering of Markdown events stands: inside a heading, a
/// paragraph, bold, italic, a table or its head row; the runs of the cell
/// being built and the cells of the row being built.
#[verifier::ext_equal]
pub struct MdState {
    pub in_heading: bool,
    pub in_paragraph: bool,
    pub bold: bool,
    pub italic: bool,
    pub in_table: bool,
    pub in_head: bool,
    pub cell: Seq<char>,
    pub row: Seq<Seq<char>>,
}

pub open spec fn md_start() -> MdState {
    MdState {
        in_heading: false,
        in_paragraph: false,
        bold: false,
        italic: false,
        in_table: false,
        in_head: false,
        cell: Seq::empty(),
        row: Seq::empty(),
    }
}

/// A text run: bold when asked or in a table head, italic when asked.
pub open spec fn run_xml(esc: Seq<char>, bold: bool, italic: bool, head: bool) -> Seq<char> {
    let rpr = (if bold || head { "<w:b/>"@ } else { Seq::empty() }) + (if italic { "<w:i/>"@ } else { Seq::empty() });
    if rpr.len() == 0 {
        "<w:r><w:t xml:space=\"preserve\">"@ + esc + "</w:t></w:r>"@
    } else {
        "<w:r><w:rPr>"@ + rpr + "</w:rPr><w:t xml:space=\"preserve\">"@ + esc + "</w:t></w:r>"@
    }
}

/// An inline-code run, in Consolas.
pub open spec fn code_run_xml(esc: Seq<char>) -> Seq<char> {
    "<w:r><w:rPr><w:rFonts w:ascii=\"Consolas\" w:hAnsi=\"Consolas\"/></w:rPr><w:t xml:space=\"preserve\">"@ + esc
        + "</w:t></w:r>"@
}

/// The pieces one after the other.
pub open spec fn concat_all(v: Seq<Seq<char>>) -> Seq<char>
    decreases v.len(),
{
    if v.len() == 0 {
        Seq::empty()
    } else {
        concat_all(v.drop_last()) + v.last()
    }
}

/// The start of a table with single borders.
pub open spec fn table_start_xml() -> Seq<char> {
    "<w:tbl><w:tblPr><w:tblW w:w=\"0\" w:type=\"auto\"/><w:tblBorders><w:top w:val=\"single\" w:sz=\"4\" w:space=\"0\" w:color=\"auto\"/><w:bottom w:val=\"single\" w:sz=\"4\" w:space=\"0\" w:color=\"auto\"/><w:insideH w:val=\"single\" w:sz=\"4\" w:space=\"0\" w:color=\"auto\"/><w:insideV w:val=\"single\" w:sz=\"4\" w:space=\"0\" w:color=\"auto\"/></w:tblBorders></w:tblPr>"@
}

/// A finished table cell around its runs.
pub open spec fn md_cell_xml(runs: Seq<char>) -> Seq<char> {
    "<w:tc><w:tcPr><w:tcW w:w=\"0\" w:type=\"auto\"/></w:tcPr><w:p>"@ + runs + "</w:p></w:tc>"@
}

/// What one event does to the rendering: the new state and the text it writes.
pub open spec fn md_step(s: MdState, t: MdToken) -> (MdState, Seq<char>) {
    let (class, tag, level, text) = t;
    if class == MdClass::Start {
        if tag == MdTag::Heading {
            (MdState { in_heading: true, ..s }, "<w:p><w:pPr><w:pStyle w:val=\"Heading"@ + decimal(level as nat) + "\"/></w:pPr>"@)
        } else if tag == MdTag::Paragraph {
            if !s.in_table {
                (MdState { in_paragraph: true, ..s }, "<w:p><w:pPr><w:pStyle w:val=\"Normal\"/></w:pPr>"@)
            } else {
                (s, Seq::empty())
            }
        } else if tag == MdTag::Strong {
            (MdState { bold: true, ..s }, Seq::empty())
        } else if tag == MdTag::Emphasis {
            (MdState { italic: true, ..s }, Seq::empty())
        } else if tag == MdTag::Table {
            (MdState { in_table: true, ..s }, table_start_xml())
        } else if tag == MdTag::TableHead {
            (MdState { in_head: true, row: Seq::empty(), ..s }, Seq::empty())
        } else if tag == MdTag::TableRow {
            (MdState { row: Seq::empty(), ..s }, Seq::empty())
        } else if tag == MdTag::TableCell {
            (MdState { cell: Seq::empty(), ..s }, Seq::empty())
        } else {
            (s, Seq::empty())
        }
    } else if class == MdClass::End {
        if tag == MdTag::Heading {
            (MdState { in_heading: false, ..s }, "</w:p>"@)
        } else if tag == MdTag::Paragraph {
            if !s.in_table {
                (MdState { in_paragraph: false, ..s }, "</w:p>"@)
            } else {
                (s, Seq::empty())
            }
        } else if tag == MdTag::Strong {
            (MdState { bold: false, ..s }, Seq::empty())
        } else if tag == MdTag::Emphasis {
            (MdState { italic: false, ..s }, Seq::empty())
        } else if tag == MdTag::Table {
            (MdState { in_table: false, ..s }, "</w:tbl>"@)
        } else if tag == MdTag::TableHead {
            (MdState { in_head: false, row: Seq::empty(), ..s }, "<w:tr>"@ + concat_all(s.row) + "</w:tr>"@)
        } else if tag == MdTag::TableRow {
            (MdState { row: Seq::empty(), ..s }, "<w:tr>"@ + concat_all(s.row) + "</w:tr>"@)
        } else if tag == MdTag::TableCell {
            (MdState { row: s.row.push(md_cell_xml(s.cell)), cell: Seq::empty(), ..s }, Seq::empty())
        } else {
            (s, Seq::empty())
        }
    } else if class == MdClass::Text {
        let run = run_xml(escape_spec(text), s.bold, s.italic, s.in_head);
        if s.in_table {
            (MdState { cell: s.cell + run, ..s }, Seq::empty())
        } else if s.in_heading || s.in_paragraph {
            (s, run)
        } else {
            (s, "<w:p>"@ + run + "</w:p>"@)
        }
    } else if class == MdClass::Code {
        let run = code_run_xml(escape_spec(text));
        if s.in_table {
            (MdState { cell: s.cell + run, ..s }, Seq::empty())
        } else {
            (s, run)
        }
    } else {
        (s, Seq::empty())
    }
}

/// The WordprocessingML that the events from position `k` on write.
pub open spec fn md_fold(toks: Seq<MdToken>, k: int, s: MdState) -> Seq<char>
    decreases toks.len() - k,
{
    if k < 0 || k >= toks.len() {
        Seq::empty()
    } else {
        let st = md_step(s, toks[k]);
        st.1 + md_fold(toks, k + 1, st.0)
    }
}

/// The body XML for a Markdown text: headings become `HeadingN`
/// paragraphs, paragraphs `Normal` ones, bold and italic spans become run
/// properties, inline code a Consolas run, and tables bordered tables whose
/// head row is bold.
pub open spec fn markdown_xml(md: Seq<char>) -> Seq<char> {
    md_fold(markdown_tokens(md), 0, md_start())
}

/// An italic run carries `<w:i/>` in its run properties, right after the
/// opening `<w:r><w:rPr>` and the bold mark when there is one.
pub proof fn lemma_italic_run_marked(esc: Seq<char>, bold: bool, head: bool)
    ensures
        occurs_at(run_xml(esc, bold, true, head), "<w:i/>"@, 12 + if bold || head { 6int } else { 0int }),
{
    reveal_strlit("<w:r><w:rPr>");
    reveal_strlit("<w:b/>");
    reveal_strlit("<w:i/>");
    let w = run_xml(esc, bold, true, head);
    let b: Seq<char> = if bold || head { "<w:b/>"@ } else { Seq::empty() };
    let rpr = b + "<w:i/>"@;
    assert(rpr.len() == b.len() + 6);
    let off: int = 12 + b.len() as int;
    assert(w == "<w:r><w:rPr>"@ + rpr + ("</w:rPr><w:t xml:space=\"preserve\">"@ + esc + "</w:t></w:r>"@));
    assert(w.subrange(off, off + 6) =~= "<w:i/>"@);
}

/// Emphasis renders as italic: the start of an emphasis span writes
/// nothing and sets the italic mark alone; a text event inside the span
/// writes a run (into the output, or into the table cell being built) whose
/// properties carry `<w:i/>`; the end of the span clears the mark and
/// changes nothing else, so a span opened and closed leaves a non-italic
/// state as it was.
pub proof fn law_emphasis_is_italic(
    s: MdState,
    l1: u32,
    x1: Seq<char>,
    tag: MdTag,
    l2: u32,
    text: Seq<char>,
    l3: u32,
    x3: Seq<char>,
)
    ensures
        ({
            let a = md_step(s, (MdClass::Start, MdTag::Emphasis, l1, x1));
            let b = md_step(a.0, (MdClass::Text, tag, l2, text));
            let c = md_step(a.0, (MdClass::End, MdTag::Emphasis, l3, x3));
            &&& a.1 == Seq::<char>::empty()
            &&& a.0 == MdState { italic: true, ..s }
            &&& a.0.italic
            &&& !s.in_table ==> exists|i: int| occurs_at(b.1, "<w:i/>"@, i)
            &&& s.in_table ==> b.1 == Seq::<char>::empty() && exists|i: int|
                i >= s.cell.len() && occurs_at(b.0.cell, "<w:i/>"@, i)
            &&& c.0 == MdState { italic: false, ..s }
            &&& c.1 == Seq::<char>::empty()
            &&& !s.italic ==> c.0 == s
        }),
{
    reveal_strlit("<w:p>");
    reveal_strlit("<w:i/>");
    let a = md_step(s, (MdClass::Start, MdTag::Emphasis, l1, x1));
    let run = run_xml(escape_spec(text), s.bold, true, s.in_head);
    let off = 12 + if s.bold || s.in_head { 6int } else { 0int };
    lemma_italic_run_marked(escape_spec(text), s.bold, s.in_head);
    let b = md_step(a.0, (MdClass::Text, tag, l2, text));
    if s.in_table {
        assert(b.0.cell == s.cell + run);
        assert(b.0.cell.subrange(s.cell.len() + off, s.cell.len() + off + 6) =~= run.subrange(off, off + 6));
        assert(occurs_at(b.0.cell, "<w:i/>"@, s.cell.len() + off));
    } else if s.in_heading || s.in_paragraph {
        assert(b.1 == run);
        assert(occurs_at(b.1, "<w:i/>"@, off));
    } else {
        assert(b.1 == "<w:p>"@ + run + "</w:p>"@);
        assert(b.1.subrange(5 + off, 5 + off + 6) =~= run.subrange(off, off + 6));
        assert(occurs_at(b.1, "<w:i/>"@, 5 + off));
    }
    if !s.italic {
        assert(MdState { italic: false, ..s } =~= s);
    }
}

/// A bold run carries `<w:b/>` right after the opening `<w:r><w:rPr>`.
pub proof fn lemma_bold_run_marked(esc: Seq<char>, italic: bool, head: bool)
    ensures
        occurs_at(run_xml(esc, true, italic, head), "<w:b/>"@, 12),
{
    reveal_strlit("<w:r><w:rPr>");
    reveal_strlit("<w:b/>");
    reveal_strlit("<w:i/>");
    let w = run_xml(esc, true, italic, head);
    let i: Seq<char> = if italic { "<w:i/>"@ } else { Seq::empty() };
    let rpr = "<w:b/>"@ + i;
    assert(w == "<w:r><w:rPr>"@ + rpr + ("</w:rPr><w:t xml:space=\"preserve\">"@ + esc + "</w:t></w:r>"@));
    assert(w.subrange(12, 18) =~= "<w:b/>"@);
}

/// Strong text renders as bold: the start of a strong span writes nothing
/// and sets the bold mark alone; a text event inside it writes a run (into
/// the output, or into the table cell being built) whose properties carry
/// `<w:b/>`; the end of the span clears the mark and changes nothing else.
pub proof fn law_strong_is_bold(
    s: MdState,
    l1: u32,
    x1: Seq<char>,
    tag: MdTag,
    l2: u32,
    text: Seq<char>,
    l3: u32,
    x3: Seq<char>,
)
    ensures
        ({
            let a = md_step(s, (MdClass::Start, MdTag::Strong, l1, x1));
            let b = md_step(a.0, (MdClass::Text, tag, l2, text));
            let c = md_step(a.0, (MdClass::End, MdTag::Strong, l3, x3));
            &&& a.1 == Seq::<char>::empty()
            &&& a.0 == MdState { bold: true, ..s }
            &&& !s.in_table ==> exists|i: int| occurs_at(b.1, "<w:b/>"@, i)
            &&& s.in_table ==> b.1 == Seq::<char>::empty() && exists|i: int|
                i >= s.cell.len() && occurs_at(b.0.cell, "<w:b/>"@, i)
            &&& c.0 == MdState { bold: false, ..s }
            &&& c.1 == Seq::<char>::empty()
            &&& !s.bold ==> c.0 == s
        }),
{
    reveal_strlit("<w:p>");
    reveal_strlit("<w:b/>");
    let a = md_step(s, (MdClass::Start, MdTag::Strong, l1, x1));
    let run = run_xml(escape_spec(text), true, s.italic, s.in_head);
    lemma_bold_run_marked(escape_spec(text), s.italic, s.in_head);
    let b = md_step(a.0, (MdClass::Text, tag, l2, text));
    if s.in_table {
        assert(b.0.cell == s.cell + run);
        assert(b.0.cell.subrange(s.cell.len() as int + 12, s.cell.len() as int + 18) =~= run.subrange(12, 18));
        assert(occurs_at(b.0.cell, "<w:b/>"@, s.cell.len() as int + 12));
    } else if s.in_heading || s.in_paragraph {
        assert(b.1 == run);
        assert(occurs_at(b.1, "<w:b/>"@, 12));
    } else {
        assert(b.1 == "<w:p>"@ + run + "</w:p>"@);
        assert(b.1.subrange(17, 23) =~= run.subrange(12, 18));
        assert(occurs_at(b.1, "<w:b/>"@, 17));
    }
    if !s.bold {
        assert(MdState { bold: false, ..s } =~= s);
    }
}

/// The rendering state with executable fields.
pub struct MdWriter {
    pub in_heading: bool,
    pub in_paragraph: bool,
    pub bold: bool,
    pub italic: bool,
    pub in_table: bool,
    pub in_head: bool,
    pub cell: String,
    pub row: Vec<String>,
}

impl MdWriter {
    pub open spec fn state(&self) -> MdState {
        MdState {
            in_heading: self.in_heading,
            in_paragraph: self.in_paragraph,
            bold: self.bold,
            italic: self.italic,
            in_table: self.in_table,
            in_head: self.in_head,
            cell: self.cell@,
            row: self.row@.map_values(|c: String| c@),
        }
    }
}

/// A text run around already escaped text.
pub fn build_run_xml(escaped_text: &str, bold: bool, italic: bool, table_head: bool) -> (r: String)
    ensures
        r@ == run_xml(escaped_text@, bold, italic, table_head),
{
    let mut rpr = String::new();
    if bold || table_head {
        push_str(&mut rpr, "<w:b/>");
    }
    if italic {
        push_str(&mut rpr, "<w:i/>");
    }
    proof {
        reveal_strlit("<w:b/>");
        reveal_strlit("<w:i/>");
    }
    let mut out = String::new();
    if rpr.as_str().is_empty() {
        push_str(&mut out, "<w:r><w:t xml:space=\"preserve\">");
    } else {
        push_str(&mut out, "<w:r><w:rPr>");
        push_str(&mut out, rpr.as_str());
        push_str(&mut out, "</w:rPr><w:t xml:space=\"preserve\">");
    }
    push_str(&mut out, escaped_text);
    push_str(&mut out, "</w:t></w:r>");
    out
}

fn push_row_xml(out: &mut String, row: &Vec<String>)
    ensures
        final(out)@ == old(out)@ + "<w:tr>"@ + concat_all(row@.map_values(|c: String| c@)) + "</w:tr>"@,
{
    let ghost rv = row@.map_values(|c: String| c@);
    push_str(out, "<w:tr>");
    let ghost base = out@;
    let mut i: usize = 0;
    while i < row.len()
        invariant
            i <= row.len(),
            rv == row@.map_values(|c: String| c@),
            out@ == base + concat_all(rv.take(i as int)),
        decreases row.len() - i,
    {
        assert(rv.take(i + 1).drop_last() == rv.take(i as int));
        push_str(out, row[i].as_str());
        i += 1;
    }
    assert(rv.take(row.len() as int) == rv);
    push_str(out, "</w:tr>");
}

fn md_start_exec(w: &mut MdWriter, class: MdClass, tag: MdTag, level: u32, text: &str, out: &mut String)
    requires
        class == MdClass::Start,
    ensures
        ({
            let st = md_step(old(w).state(), (class, tag, level, text@));
            final(w).state() =~= st.0 && final(out)@ == old(out)@ + st.1
        }),
{
    if tag == MdTag::Heading {
        w.in_heading = true;
        push_str(out, "<w:p><w:pPr><w:pStyle w:val=\"Heading");
        push_decimal(out, level as usize);
        push_str(out, "\"/></w:pPr>");
    } else if tag == MdTag::Paragraph {
        if !w.in_table {
            w.in_paragraph = true;
            push_str(out, "<w:p><w:pPr><w:pStyle w:val=\"Normal\"/></w:pPr>");
        }
    } else if tag == MdTag::Strong {
        w.bold = true;
    } else if tag == MdTag::Emphasis {
        w.italic = true;
    } else if tag == MdTag::Table {
        w.in_table = true;
        push_str(out, "<w:tbl><w:tblPr><w:tblW w:w=\"0\" w:type=\"auto\"/><w:tblBorders><w:top w:val=\"single\" w:sz=\"4\" w:space=\"0\" w:color=\"auto\"/><w:bottom w:val=\"single\" w:sz=\"4\" w:space=\"0\" w:color=\"auto\"/><w:insideH w:val=\"single\" w:sz=\"4\" w:space=\"0\" w:color=\"auto\"/><w:insideV w:val=\"single\" w:sz=\"4\" w:space=\"0\" w:color=\"auto\"/></w:tblBorders></w:tblPr>");
    } else if tag == MdTag::TableHead {
        w.in_head = true;
        w.row = Vec::new();
        assert(w.row@.map_values(|x: String| x@) =~= Seq::<Seq<char>>::empty());
    } else if tag == MdTag::TableRow {
        w.row = Vec::new();
        assert(w.row@.map_values(|x: String| x@) =~= Seq::<Seq<char>>::empty());
    } else if tag == MdTag::TableCell {
        w.cell = String::new();
    }
}

fn md_end_exec(w: &mut MdWriter, class: MdClass, tag: MdTag, level: u32, text: &str, out: &mut String)
    requires
        class == MdClass::End,
    ensures
        ({
            let st = md_step(old(w).state(), (class, tag, level, text@));
            final(w).state() =~= st.0 && final(out)@ == old(out)@ + st.1
        }),
{
    if tag == MdTag::Heading {
        w.in_heading = false;
        push_str(out, "</w:p>");
    } else if tag == MdTag::Paragraph {
        if !w.in_table {
            w.in_paragraph = false;
            push_str(out, "</w:p>");
        }
    } else if tag == MdTag::Strong {
        w.bold = false;
    } else if tag == MdTag::Emphasis {
        w.italic = false;
    } else if tag == MdTag::Table {
        w.in_table = false;
        push_str(out, "</w:tbl>");
    } else if tag == MdTag::TableHead {
        w.in_head = false;
        push_row_xml(out, &w.row);
        w.row = Vec::new();
        assert(w.row@.map_values(|x: String| x@) =~= Seq::<Seq<char>>::empty());
    } else if tag == MdTag::TableRow {
        push_row_xml(out, &w.row);
        w.row = Vec::new();
        assert(w.row@.map_values(|x: String| x@) =~= Seq::<Seq<char>>::empty());
    } else if tag == MdTag::TableCell {
        let mut c = "<w:tc><w:tcPr><w:tcW w:w=\"0\" w:type=\"auto\"/></w:tcPr><w:p>".to_owned();
        push_str(&mut c, w.cell.as_str());
        push_str(&mut c, "</w:p></w:tc>");
        let ghost before = w.row@.map_values(|x: String| x@);
        w.row.push(c);
        assert(w.row@.map_values(|x: String| x@) == before.push(md_cell_xml(old(w).cell@)));
        w.cell = String::new();
    }
}

fn md_text_exec(w: &mut MdWriter, class: MdClass, tag: MdTag, level: u32, text: &str, out: &mut String)
    requires
        class != MdClass::Start && class != MdClass::End,
    ensures
        ({
            let st = md_step(old(w).state(), (class, tag, level, text@));
            final(w).state() =~= st.0 && final(out)@ == old(out)@ + st.1
        }),
{
    if class == MdClass::Text {
        let esc = escape_xml(text);
        let run = build_run_xml(esc.as_str(), w.bold, w.italic, w.in_head);
        if w.in_table {
            push_str(&mut w.cell, run.as_str());
        } else if w.in_heading || w.in_paragraph {
            push_str(out, run.as_str());
        } else {
            push_str(out, "<w:p>");
            push_str(out, run.as_str());
            push_str(out, "</w:p>");
        }
    } else if class == MdClass::Code {
        let esc = escape_xml(text);
        let mut run = "<w:r><w:rPr><w:rFonts w:ascii=\"Consolas\" w:hAnsi=\"Consolas\"/></w:rPr><w:t xml:space=\"preserve\">".to_owned();
        push_str(&mut run, esc.as_str());
        push_str(&mut run, "</w:t></w:r>");
        if w.in_table {
            push_str(&mut w.cell, run.as_str());
        } else {
            push_str(out, run.as_str());
        }
    }
}

fn md_step_exec(w: &mut MdWriter, class: MdClass, tag: MdTag, level: u32, text: &str, out: &mut String)
    ensures
        ({
            let st = md_step(old(w).state(), (class, tag, level, text@));
            final(w).state() =~= st.0 && final(out)@ == old(out)@ + st.1
        }),
{
    if class == MdClass::Start {
        md_start_exec(w, class, tag, level, text, out);
    } else if class == MdClass::End {
        md_end_exec(w, class, tag, level, text, out);
    } else {
        md_text_exec(w, class, tag, level, text, out);
    }
}

/// Converts a Markdown text to body XML.
pub fn markdown_to_openxml(md_content: &str) -> (r: String)
    ensures
        r@ == markdown_xml(md_content@),
{
    let classes = md_event_classes(md_content);
    let tags = md_event_tags(md_content);
    let levels = md_event_levels(md_content);
    let texts = md_event_texts(md_content);
    let ghost toks = markdown_tokens(md_content@);
    let mut n = classes.len();
    if tags.len() < n {
        n = tags.len();
    }
    if levels.len() < n {
        n = levels.len();
    }
    if texts.len() < n {
        n = texts.len();
    }
    assert(toks.len() == n);
    let mut w = MdWriter {
        in_heading: false,
        in_paragraph: false,
        bold: false,
        italic: false,
        in_table: false,
        in_head: false,
        cell: String::new(),
        row: Vec::new(),
    };
    assert(w.row@.map_values(|x: String| x@) =~= Seq::<Seq<char>>::empty());
    assert(w.state() =~= md_start());
    let mut out = String::new();
    let mut k: usize = 0;
    while k < n
        invariant
            k <= n,
            n == toks.len(),
            n <= classes.len() && n <= tags.len() && n <= levels.len() && n <= texts.len(),
            toks == markdown_tokens(md_content@),
            classes@ == markdown_classes(md_content@),
            tags@ == markdown_tags(md_content@),
            levels@ == markdown_levels(md_content@),
            texts@.map_values(|s: String| s@) == markdown_texts(md_content@),
            markdown_xml(md_content@) == out@ + md_fold(toks, k as int, w.state()),
        decreases n - k,
    {
        assert(toks[k as int] == (classes@[k as int], tags@[k as int], levels@[k as int], texts@[k as int]@));
        md_step_exec(&mut w, classes[k], tags[k], levels[k], texts[k].as_str(), &mut out);
        k += 1;
    }
    out
}

/// The main part with `frag` put before its last `<w:sectPr`, or, when it
/// has none, before its last `</w:body>`; nothing when it has neither.
pub open spec fn inject_spec(doc: Seq<char>, frag: Seq<char>) -> Option<Seq<char>> {
    match find_last(doc, "<w:sectPr"@) {
        Some(p) => Some(insert_text(doc, p, frag)),
        None => match find_last(doc, "</w:body>"@) {
            Some(p) => Some(insert_text(doc, p, frag)),
            None => None,
        },
    }
}

/// Puts body XML at the end of the document body, before the final
/// section properties.
pub fn inject_body_into_document(pkg: &mut DocxPackage, new_xml: &str) -> (r: Result<(), WordCliError>)
    ensures
        r is Err ==> final(pkg)@ == old(pkg)@,
        part_text(old(pkg)@, document_part()) == Err::<Seq<char>, int>(0) ==> (r matches Err(e) && e is NotFound),
        part_text(old(pkg)@, document_part()) == Err::<Seq<char>, int>(1) ==> (r matches Err(e) && e is CorruptedDocument),
        part_text(old(pkg)@, document_part()) matches Ok(d) ==> match inject_spec(d, new_xml@) {
            Some(u) => r is Ok && final(pkg)@ == old(pkg)@.insert(document_part(), encode_utf8(u)),
            None => r matches Err(e) && e is CorruptedDocument && e->CorruptedDocument_0@ == "文档缺少 </w:body> 闭合标签"@,
        },
{
    let orig = pkg.get_text("word/document.xml")?;
    let d = str_chars(orig.as_str());
    let frag = str_chars(new_xml);
    let pos = match rfind_str(d.as_slice(), "<w:sectPr") {
        Some(p) => p,
        None => match rfind_str(d.as_slice(), "</w:body>") {
            Some(p) => p,
            None => {
                return Err(WordCliError::CorruptedDocument("文档缺少 </w:body> 闭合标签".to_owned()));
            },
        },
    };
    let updated = insert_chars(d.as_slice(), pos, frag.as_slice());
    pkg.set_text("word/document.xml", string_from_chars(updated.as_slice()));
    Ok(())
}

/// Converts Markdown text into the document body of `pkg` (the blank
/// document or the template, as loaded by the caller). The caller writes
/// the package to `output_path`.
pub fn import_markdown(pkg: &mut DocxPackage, md_text: &str, input_path: &str, output_path: &str, template_path: Option<&str>)
    -> (r: Result<ImportResponse, WordCliError>)
    ensures
        r is Err ==> final(pkg)@ == old(pkg)@,
        part_text(old(pkg)@, document_part()) == Err::<Seq<char>, int>(0) ==> (r matches Err(e) && e is NotFound),
        part_text(old(pkg)@, document_part()) == Err::<Seq<char>, int>(1) ==> (r matches Err(e) && e is CorruptedDocument),
        part_text(old(pkg)@, document_part()) matches Ok(d) ==> match inject_spec(d, markdown_xml(md_text@)) {
            Some(u) => r is Ok && final(pkg)@ == old(pkg)@.insert(document_part(), encode_utf8(u)),
            None => r matches Err(e) && e is CorruptedDocument,
        },
        r matches Ok(resp) ==> resp.status@ == "success"@ && resp.command@ == "import"@ && resp.input_file@ == input_path@
            && resp.output_file@ == output_path@ && opt_view(resp.template_used) == opt_str(template_path)
            && resp.message@ == "已成功将 Markdown/TXT 内容转换为 Word 文档"@,
{
    let body = markdown_to_openxml(md_text);
    inject_body_into_document(pkg, body.as_str())?;
    Ok(ImportResponse {
        status: "success".to_owned(),
        command: "import".to_owned(),
        input_file: input_path.to_owned(),
        output_file: output_path.to_owned(),
        template_used: match template_path {
            Some(t) => Some(t.to_owned()),
            None => None,
        },
        message: "已成功将 Markdown/TXT 内容转换为 Word 文档".to_owned(),
    })
}

} // verus!
