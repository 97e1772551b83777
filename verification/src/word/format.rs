use vstd::prelude::*;
use vstd::utf8::encode_utf8;

use crate::pdf::extract::has_sub;
use crate::text::{
    contains_str, decimal, eq_ignore_ascii_case, eq_ignore_ascii_case_chars, push_decimal, push_str, str_chars,
    string_from_chars,
};
use crate::unicode::{lowercase, to_lowercase};
use crate::word::error::WordCliError;
use crate::word::package::{document_part, escape_spec, escape_xml, part_text, DocxPackage};
use crate::word::paragraph::ParaOpResponse;
use crate::word::xml::{is_tag, parsed_as, tag_is, tokenize, xml_events, XmlKind, XmlToken};
use crate::pdf::pages::{parse_usize, parse_usize_exec, sub_chars};

verus! {

/// A style name that marks a heading: its lowercase form holds `heading`,
/// `title` or `标题`.
pub open spec fn heading_word(v: Seq<char>) -> bool {
    let l = lowercase(v);
    has_sub(l, "heading"@) || has_sub(l, "title"@) || has_sub(l, "标题"@)
}

/// A `pStyle` whose `val` attributes name a heading.
pub open spec fn heading_style_tag(attrs: Seq<(String, String)>) -> bool {
    exists|i: int| 0 <= i < attrs.len() && (#[trigger] attrs[i]).0@ == "val"@ && heading_word(attrs[i].1@)
}

fn heading_style_exec(attrs: &Vec<(String, String)>) -> (b: bool)
    ensures
        b == heading_style_tag(attrs@),
{
    let mut i: usize = 0;
    while i < attrs.len()
        invariant
            i <= attrs.len(),
            forall|j: int| 0 <= j < i ==> !((#[trigger] attrs@[j]).0@ == "val"@ && heading_word(attrs@[j].1@)),
        decreases attrs.len() - i,
    {
        if crate::text::chars_eq(str_chars(attrs[i].0.as_str()).as_slice(), str_chars("val").as_slice()) {
            let l = str_chars(to_lowercase(attrs[i].1.as_str()).as_str());
            if contains_str(l.as_slice(), "heading") || contains_str(l.as_slice(), "title") || contains_str(l.as_slice(), "标题") {
                return true;
            }
        }
        i += 1;
    }
    false
}

/// The paragraphs met from token `k` on: a heading flag for each finished
/// paragraph, then one for the paragraph still open at the end.
pub open spec fn head_scan(ts: Seq<XmlToken>, k: int, in_para: bool, cur: bool, done: Seq<bool>) -> Seq<bool>
    decreases ts.len() - k,
{
    if k < 0 || k >= ts.len() {
        done.push(cur)
    } else {
        let t = ts[k];
        if is_tag(t, XmlKind::Start, "p"@) {
            head_scan(ts, k + 1, true, cur, done)
        } else if (is_tag(t, XmlKind::Start, "pStyle"@) || is_tag(t, XmlKind::Empty, "pStyle"@)) && in_para {
            head_scan(ts, k + 1, in_para, cur || heading_style_tag(t.attrs@), done)
        } else if is_tag(t, XmlKind::End, "p"@) {
            head_scan(ts, k + 1, false, false, done.push(cur))
        } else {
            head_scan(ts, k + 1, in_para, cur, done)
        }
    }
}

/// Counts the paragraphs and marks the headings: one flag per paragraph,
/// plus one for a paragraph left open at the end.
pub fn scan_headings(ts: &Vec<XmlToken>) -> (r: Vec<bool>)
    ensures
        r@ == head_scan(ts@, 0, false, false, Seq::empty()),
        r@.len() >= 1,
        r@.len() <= ts@.len() + 1,
{
    let mut done: Vec<bool> = Vec::new();
    let mut in_para = false;
    let mut cur = false;
    let mut k: usize = 0;
    while k < ts.len()
        invariant
            k <= ts.len(),
            done@.len() <= k,
            head_scan(ts@, 0, false, false, Seq::empty()) == head_scan(ts@, k as int, in_para, cur, done@),
        decreases ts.len() - k,
    {
        let t = &ts[k];
        if tag_is(t, XmlKind::Start, "p") {
            in_para = true;
        } else if (tag_is(t, XmlKind::Start, "pStyle") || tag_is(t, XmlKind::Empty, "pStyle")) && in_para {
            cur = cur || heading_style_exec(&t.attrs);
        } else if tag_is(t, XmlKind::End, "p") {
            done.push(cur);
            in_para = false;
            cur = false;
        }
        k += 1;
    }
    done.push(cur);
    done
}

/// The paragraphs a format request names, as an inclusive interval (empty
/// when `lo > hi`) and whether headings are taken out of it.
pub struct Selection {
    pub empty: bool,
    pub lo: usize,
    pub hi: usize,
    pub skip_headings: bool,
}

/// Paragraph `i` is a heading by the scan.
pub open spec fn is_heading(heads: Seq<bool>, i: nat) -> bool {
    i < heads.len() && heads[i as int]
}

/// Paragraph `i` is to be formatted.
pub open spec fn in_selection(sel: Selection, heads: Seq<bool>, i: nat) -> bool {
    !sel.empty && sel.lo <= i <= sel.hi && !(sel.skip_headings && is_heading(heads, i))
}

/// The selected paragraphs among the first `n` of the interval, in order.
pub open spec fn picked(sel: Selection, heads: Seq<bool>, n: nat) -> Seq<nat>
    decreases n,
{
    if n == 0 {
        Seq::empty()
    } else {
        let i = (sel.lo + n - 1) as nat;
        picked(sel, heads, (n - 1) as nat) + if !(sel.skip_headings && is_heading(heads, i)) {
            seq![i]
        } else {
            Seq::empty()
        }
    }
}

/// All selected paragraphs, in order.
pub open spec fn picked_all(sel: Selection, heads: Seq<bool>) -> Seq<nat> {
    if sel.empty || sel.lo > sel.hi {
        Seq::empty()
    } else {
        picked(sel, heads, (sel.hi - sel.lo + 1) as nat)
    }
}

/// The paragraphs a request names: one index; or a range text (`all` in
/// any case, `start:end` with either side defaulting to the ends and the
/// end cut at the last paragraph, or one number; anything else names
/// none); `None` when neither is given. `total` is the number of
/// paragraphs; for `body`, headings are left out.
pub open spec fn selection_spec(index: Option<usize>, range: Option<Seq<char>>, target: Seq<char>, total: nat) -> Option<Selection> {
    let skip = eq_ignore_ascii_case(target, "body"@);
    let last: nat = if total > 0 { (total - 1) as nat } else { 0 };
    match index {
        Some(i) => Some(Selection { empty: false, lo: i, hi: i, skip_headings: skip }),
        None => match range {
            Some(r) => if eq_ignore_ascii_case(r, "all"@) {
                Some(Selection { empty: total == 0, lo: 0, hi: last as usize, skip_headings: skip })
            } else {
                match crate::text::find_first(r, ":"@) {
                    Some(p) => {
                        let start: nat = match parse_usize(r.take(p)) { Some(v) => v, None => 0 };
                        let end: nat = match parse_usize(r.skip(p + 1)) { Some(v) => v, None => last };
                        let hi: nat = if end <= last { end } else { last };
                        Some(Selection { empty: start > hi, lo: start as usize, hi: hi as usize, skip_headings: skip })
                    },
                    None => match parse_usize(r) {
                        Some(v) => Some(Selection { empty: false, lo: v as usize, hi: v as usize, skip_headings: skip }),
                        None => Some(Selection { empty: true, lo: 0, hi: 0, skip_headings: skip }),
                    },
                }
            },
            None => None,
        },
    }
}

/// Works out the paragraphs a request names.
pub fn select_paragraphs_for_format(index: Option<usize>, range: Option<&str>, target: &str, total: usize) -> (r: Option<Selection>)
    ensures
        r == selection_spec(index, crate::excel::writer::opt_name(range), target@, total as nat),
{
    let skip = eq_ignore_ascii_case_chars(str_chars(target).as_slice(), str_chars("body").as_slice());
    let last: usize = if total > 0 { total - 1 } else { 0 };
    match index {
        Some(i) => Some(Selection { empty: false, lo: i, hi: i, skip_headings: skip }),
        None => match range {
            Some(r) => {
                let v = str_chars(r);
                if eq_ignore_ascii_case_chars(v.as_slice(), str_chars("all").as_slice()) {
                    Some(Selection { empty: total == 0, lo: 0, hi: last, skip_headings: skip })
                } else {
                    match crate::text::find_str(v.as_slice(), ":") {
                        Some(p) => {
                            proof {
                                reveal_strlit(":");
                            }
                            let a = sub_chars(v.as_slice(), 0, p);
                            let b = sub_chars(v.as_slice(), p + 1, v.len());
                            assert(a@ == v@.take(p as int));
                            assert(b@ == v@.skip(p + 1));
                            let start: usize = match parse_usize_exec(a.as_slice()) { Some(x) => x, None => 0 };
                            let end: usize = match parse_usize_exec(b.as_slice()) { Some(x) => x, None => last };
                            let hi: usize = if end <= last { end } else { last };
                            Some(Selection { empty: start > hi, lo: start, hi, skip_headings: skip })
                        },
                        None => match parse_usize_exec(v.as_slice()) {
                            Some(x) => Some(Selection { empty: false, lo: x, hi: x, skip_headings: skip }),
                            None => Some(Selection { empty: true, lo: 0, hi: 0, skip_headings: skip }),
                        },
                    }
                }
            },
            None => None,
        },
    }
}

/// Lists the selected paragraphs in order.
pub fn picked_exec(sel: &Selection, heads: &Vec<bool>) -> (r: Vec<usize>)
    ensures
        r@.map_values(|i: usize| i as nat) == picked_all(*sel, heads@),
{
    let mut out: Vec<usize> = Vec::new();
    if sel.empty || sel.lo > sel.hi {
        assert(out@.map_values(|i: usize| i as nat) =~= Seq::<nat>::empty());
        return out;
    }
    let mut i = sel.lo;
    assert(out@.map_values(|i: usize| i as nat) =~= picked(*sel, heads@, 0));
    loop
        invariant_except_break
            sel.lo <= i <= sel.hi,
            out@.map_values(|i: usize| i as nat) == picked(*sel, heads@, (i - sel.lo) as nat),
        invariant
            !sel.empty,
            sel.lo <= sel.hi,
        ensures
            out@.map_values(|i: usize| i as nat) == picked(*sel, heads@, (sel.hi - sel.lo + 1) as nat),
        decreases sel.hi - i,
    {
        let h = i < heads.len() && heads[i];
        let ghost before = out@.map_values(|i: usize| i as nat);
        if !(sel.skip_headings && h) {
            out.push(i);
            assert(out@.map_values(|i: usize| i as nat) == before.push(i as nat));
        }
        assert(picked(*sel, heads@, (i + 1 - sel.lo) as nat) == picked(*sel, heads@, (i - sel.lo) as nat) + if !(sel.skip_headings
            && is_heading(heads@, i as nat)) {
            seq![i as nat]
        } else {
            Seq::empty()
        });
        if i == sel.hi {
            break;
        }
        i += 1;
    }
    out
}

/// The paragraph properties a format writes: a first-line indent (in
/// hundredths of a character) and a line spacing (in 240ths of a line).
pub open spec fn ppr_frag(indent: Option<u32>, spacing: Option<u32>) -> Seq<char> {
    (match indent {
        Some(v) => "<w:ind w:firstLineChars=\""@ + decimal(v as nat) + "\"/>"@,
        None => Seq::empty(),
    }) + (match spacing {
        Some(v) => "<w:spacing w:line=\""@ + decimal(v as nat) + "\" w:lineRule=\"auto\"/>"@,
        None => Seq::empty(),
    })
}

/// The run properties a format writes: a font (escaped), a size in half
/// points, bold.
pub open spec fn rpr_frag(font: Option<Seq<char>>, half_points: Option<u32>, bold: Option<bool>) -> Seq<char> {
    (match font {
        Some(f) => "<w:rFonts w:ascii=\""@ + escape_spec(f) + "\" w:hAnsi=\""@ + escape_spec(f) + "\" w:eastAsia=\""@
            + escape_spec(f) + "\"/>"@,
        None => Seq::empty(),
    }) + (match half_points {
        Some(h) => "<w:sz w:val=\""@ + decimal(h as nat) + "\"/><w:szCs w:val=\""@ + decimal(h as nat) + "\"/>"@,
        None => Seq::empty(),
    }) + (if bold == Some(true) { "<w:b/><w:bCs/>"@ } else { Seq::empty() })
}

/// What one token does in a batch format: the text written, the paragraph
/// count, and whether the reading is in a selected paragraph, a run, and
/// old run properties. In a selected paragraph, the new paragraph
/// properties follow its start tag, the new run properties follow each
/// run's start tag, and the old run properties are dropped, whole, when new
/// run properties are given or formatting is stripped; otherwise they stay
/// as they were.
#[verifier::opaque]
pub open spec fn format_step_spec(
    t: XmlToken,
    sel: Selection,
    heads: Seq<bool>,
    ppr: Seq<char>,
    rpr: Seq<char>,
    strip: bool,
    idx: nat,
    in_p: bool,
    in_run: bool,
    in_rpr: bool,
) -> (Seq<char>, nat, bool, bool, bool) {
    if is_tag(t, XmlKind::Start, "p"@) {
        let p2 = in_p || in_selection(sel, heads, idx);
        (t.raw@ + (if p2 && ppr.len() > 0 { "<w:pPr>"@ + ppr + "</w:pPr>"@ } else { Seq::empty() }), idx, p2, in_run, in_rpr)
    } else if in_p && is_tag(t, XmlKind::Start, "r"@) {
        (t.raw@ + (if rpr.len() > 0 { "<w:rPr>"@ + rpr + "</w:rPr>"@ } else { Seq::empty() }), idx, in_p, true, in_rpr)
    } else if in_p && in_run && is_tag(t, XmlKind::Start, "rPr"@) {
        (if rpr.len() > 0 || strip { Seq::empty() } else { t.raw@ }, idx, in_p, in_run, true)
    } else if in_p && in_run && is_tag(t, XmlKind::End, "rPr"@) {
        (if rpr.len() > 0 || strip { Seq::empty() } else { t.raw@ }, idx, in_p, in_run, false)
    } else if (t.kind == XmlKind::Start || t.kind == XmlKind::Empty) && in_p && in_rpr {
        (if rpr.len() > 0 || strip { Seq::empty() } else { t.raw@ }, idx, in_p, in_run, in_rpr)
    } else if in_p && is_tag(t, XmlKind::End, "r"@) {
        (t.raw@, idx, in_p, false, in_rpr)
    } else if is_tag(t, XmlKind::End, "p"@) {
        (t.raw@, idx + 1, false, in_run, in_rpr)
    } else {
        (if in_p && in_rpr && (rpr.len() > 0 || strip) { Seq::empty() } else { t.raw@ }, idx, in_p, in_run, in_rpr)
    }
}

/// The text a batch format writes from token `k` on.
pub open spec fn format_fold(
    ts: Seq<XmlToken>,
    k: int,
    sel: Selection,
    heads: Seq<bool>,
    ppr: Seq<char>,
    rpr: Seq<char>,
    strip: bool,
    idx: nat,
    in_p: bool,
    in_run: bool,
    in_rpr: bool,
) -> Seq<char>
    decreases ts.len() - k,
{
    if k < 0 || k >= ts.len() {
        Seq::empty()
    } else {
        let s = format_step_spec(ts[k], sel, heads, ppr, rpr, strip, idx, in_p, in_run, in_rpr);
        s.0 + format_fold(ts, k + 1, sel, heads, ppr, rpr, strip, s.1, s.2, s.3, s.4)
    }
}

fn format_step(t: &XmlToken, sel: &Selection, heads: &Vec<bool>, ppr: &[char], rpr: &[char], strip: bool,
    out: &mut Vec<char>, idx: usize, in_p: bool, in_run: bool, in_rpr: bool) -> (r: (usize, bool, bool, bool))
    requires
        idx < usize::MAX,
    ensures
        ({
            let s = format_step_spec(*t, *sel, heads@, ppr@, rpr@, strip, idx as nat, in_p, in_run, in_rpr);
            final(out)@ == old(out)@ + s.0 && r.0 as nat == s.1 && r.1 == s.2 && r.2 == s.3 && r.3 == s.4
        }),
        r.0 <= idx + 1,
{
    reveal(format_step_spec);
    let raw = str_chars(t.raw.as_str());
    if tag_is(t, XmlKind::Start, "p") {
        let selected = !sel.empty && sel.lo <= idx && idx <= sel.hi
            && !(sel.skip_headings && idx < heads.len() && heads[idx]);
        let p2 = in_p || selected;
        crate::text::extend_chars(out, raw.as_slice());
        if p2 && ppr.len() > 0 {
            crate::text::extend_chars(out, str_chars("<w:pPr>").as_slice());
            crate::text::extend_chars(out, ppr);
            crate::text::extend_chars(out, str_chars("</w:pPr>").as_slice());
        }
        (idx, p2, in_run, in_rpr)
    } else if in_p && tag_is(t, XmlKind::Start, "r") {
        crate::text::extend_chars(out, raw.as_slice());
        if rpr.len() > 0 {
            crate::text::extend_chars(out, str_chars("<w:rPr>").as_slice());
            crate::text::extend_chars(out, rpr);
            crate::text::extend_chars(out, str_chars("</w:rPr>").as_slice());
        }
        (idx, in_p, true, in_rpr)
    } else if in_p && in_run && tag_is(t, XmlKind::Start, "rPr") {
        if !(rpr.len() > 0 || strip) {
            crate::text::extend_chars(out, raw.as_slice());
        }
        (idx, in_p, in_run, true)
    } else if in_p && in_run && tag_is(t, XmlKind::End, "rPr") {
        if !(rpr.len() > 0 || strip) {
            crate::text::extend_chars(out, raw.as_slice());
        }
        (idx, in_p, in_run, false)
    } else if (t.kind == XmlKind::Start || t.kind == XmlKind::Empty) && in_p && in_rpr {
        if !(rpr.len() > 0 || strip) {
            crate::text::extend_chars(out, raw.as_slice());
        }
        (idx, in_p, in_run, in_rpr)
    } else if in_p && tag_is(t, XmlKind::End, "r") {
        crate::text::extend_chars(out, raw.as_slice());
        (idx, in_p, false, in_rpr)
    } else if tag_is(t, XmlKind::End, "p") {
        crate::text::extend_chars(out, raw.as_slice());
        (idx + 1, false, in_run, in_rpr)
    } else {
        if !(in_p && in_rpr && (rpr.len() > 0 || strip)) {
            crate::text::extend_chars(out, raw.as_slice());
        }
        (idx, in_p, in_run, in_rpr)
    }
}

/// Rewrites the formatting of the selected paragraphs.
#[verifier::rlimit(40)]
pub fn batch_update_p_format(ts: &Vec<XmlToken>, sel: &Selection, heads: &Vec<bool>, ppr: &[char], rpr: &[char], strip: bool)
    -> (r: Vec<char>)
    ensures
        r@ == format_fold(ts@, 0, *sel, heads@, ppr@, rpr@, strip, 0, false, false, false),
{
    let ghost f0 = format_fold(ts@, 0, *sel, heads@, ppr@, rpr@, strip, 0, false, false, false);
    let mut out: Vec<char> = Vec::new();
    let mut idx: usize = 0;
    let mut in_p = false;
    let mut in_run = false;
    let mut in_rpr = false;
    let mut k: usize = 0;
    while k < ts.len()
        invariant
            k <= ts.len(),
            idx <= k,
            f0 == out@ + format_fold(ts@, k as int, *sel, heads@, ppr@, rpr@, strip, idx as nat, in_p, in_run, in_rpr),
        decreases ts.len() - k,
    {
        let ghost o = out@;
        let st = format_step(&ts[k], sel, heads, ppr, rpr, strip, &mut out, idx, in_p, in_run, in_rpr);
        assert(format_fold(ts@, k as int, *sel, heads@, ppr@, rpr@, strip, idx as nat, in_p, in_run, in_rpr)
            == (out@.skip(o.len() as int)) + format_fold(ts@, k + 1, *sel, heads@, ppr@, rpr@, strip, st.0 as nat, st.1, st.2, st.3));
        idx = st.0;
        in_p = st.1;
        in_run = st.2;
        in_rpr = st.3;
        k += 1;
    }
    out
}

fn ppr_frag_exec(indent: Option<u32>, spacing: Option<u32>) -> (r: Vec<char>)
    ensures
        r@ == ppr_frag(indent, spacing),
{
    let mut s = String::new();
    match indent {
        Some(v) => {
            push_str(&mut s, "<w:ind w:firstLineChars=\"");
            push_decimal(&mut s, v as usize);
            push_str(&mut s, "\"/>");
        },
        None => {},
    }
    match spacing {
        Some(v) => {
            push_str(&mut s, "<w:spacing w:line=\"");
            push_decimal(&mut s, v as usize);
            push_str(&mut s, "\" w:lineRule=\"auto\"/>");
        },
        None => {},
    }
    str_chars(s.as_str())
}

fn rpr_frag_exec(font: Option<&str>, half_points: Option<u32>, bold: Option<bool>) -> (r: Vec<char>)
    ensures
        r@ == rpr_frag(crate::excel::writer::opt_name(font), half_points, bold),
{
    let mut s = String::new();
    match font {
        Some(f) => {
            let e = escape_xml(f);
            push_str(&mut s, "<w:rFonts w:ascii=\"");
            push_str(&mut s, e.as_str());
            push_str(&mut s, "\" w:hAnsi=\"");
            push_str(&mut s, e.as_str());
            push_str(&mut s, "\" w:eastAsia=\"");
            push_str(&mut s, e.as_str());
            push_str(&mut s, "\"/>");
        },
        None => {},
    }
    match half_points {
        Some(h) => {
            push_str(&mut s, "<w:sz w:val=\"");
            push_decimal(&mut s, h as usize);
            push_str(&mut s, "\"/><w:szCs w:val=\"");
            push_decimal(&mut s, h as usize);
            push_str(&mut s, "\"/>");
        },
        None => {},
    }
    match bold {
        Some(b) => {
            if b {
                push_str(&mut s, "<w:b/><w:bCs/>");
            }
        },
        None => {},
    }
    str_chars(s.as_str())
}

/// The text of the main part after a format request, and how many
/// paragraphs it names.
pub open spec fn format_outcome(
    heads: Seq<bool>,
    ts: Seq<XmlToken>,
    index: Option<usize>,
    range: Option<Seq<char>>,
    target: Seq<char>,
    ppr: Seq<char>,
    rpr: Seq<char>,
    strip: bool,
) -> (Seq<nat>, Seq<char>) {
    let sel = selection_spec(index, range, target, (heads.len() - 1) as nat).unwrap();
    (picked_all(sel, heads), format_fold(ts, 0, sel, heads, ppr, rpr, strip, 0, false, false, false))
}

/// Formats paragraphs: the one at `index`, or those a `range` names (see
/// `selection_spec`), leaving headings alone when `target` is `body`. The
/// indent, line spacing and font size come as integers (hundredths of a
/// character, 240ths of a line, half points). The caller writes the
/// package out.
pub fn format_paragraph(
    pkg: &mut DocxPackage,
    file_path: &str,
    index: Option<usize>,
    range: Option<&str>,
    target: &str,
    indent: Option<u32>,
    spacing: Option<u32>,
    font: Option<&str>,
    half_points: Option<u32>,
    bold: Option<bool>,
    strip_formatting: bool,
) -> (r: Result<ParaOpResponse, WordCliError>)
    ensures
        r is Err ==> final(pkg)@ == old(pkg)@,
        part_text(old(pkg)@, document_part()) == Err::<Seq<char>, int>(0) ==> (r matches Err(e) && e is NotFound),
        part_text(old(pkg)@, document_part()) == Err::<Seq<char>, int>(1) ==> (r matches Err(e) && e is CorruptedDocument),
        r matches Ok(resp) ==> resp.status@ == "success"@ && resp.command@ == "para-format"@ && resp.file@ == file_path@,
        part_text(old(pkg)@, document_part()) matches Ok(d) ==> match xml_events(d, true) {
            Err(m) => r matches Err(WordCliError::XmlParseError(x)) && x@ == m,
            Ok(_) => exists|ts1: Seq<XmlToken>| #[trigger] parsed_as(d, true, ts1) && {
                let heads = head_scan(ts1, 0, false, false, Seq::empty());
                match selection_spec(index, crate::excel::writer::opt_name(range), target@, (heads.len() - 1) as nat) {
                    None => r matches Err(WordCliError::InvalidParameter(x))
                        && x@ == "必须提供 --index 指定单段，或提供 --range (如 '0:25' / 'all') 进行批量排版"@,
                    Some(sel) => if picked_all(sel, heads).len() == 0 {
                        &&& r matches Ok(resp)
                        &&& final(pkg)@ == old(pkg)@
                        &&& resp.affected_count == Some(0usize)
                        &&& resp.affected_index == (match index { Some(i) => i, None => 0 })
                        &&& resp.message@ == "未匹配到需要格式化的正文段落（可能目标范围内全为标题段落）"@
                    } else {
                        match xml_events(d, false) {
                            Err(m) => r matches Err(WordCliError::XmlParseError(x)) && x@ == m,
                            Ok(_) => exists|ts2: Seq<XmlToken>| #[trigger] parsed_as(d, false, ts2) && {
                                let o = format_outcome(heads, ts2, index, crate::excel::writer::opt_name(range), target@,
                                    ppr_frag(indent, spacing), rpr_frag(crate::excel::writer::opt_name(font), half_points, bold),
                                    strip_formatting);
                                &&& r matches Ok(resp)
                                &&& resp.affected_count == Some(o.0.len() as usize)
                                &&& resp.affected_index as nat == o.0[0]
                                &&& final(pkg)@ == old(pkg)@.insert(document_part(), encode_utf8(o.1))
                                &&& resp.message@ == "已成功批量更新 "@ + decimal(o.0.len()) + " 个段落的格式（范围模式: target="@
                                    + target@ + ", 已保护标题）"@
                            },
                        }
                    },
                }
            },
        },
{
    let doc = pkg.get_text("word/document.xml")?;
    let ts1 = match tokenize(doc.as_str(), true) {
        Ok(ts) => ts,
        Err(m) => return Err(WordCliError::XmlParseError(m)),
    };
    assert(parsed_as(doc@, true, ts1@));
    let heads = scan_headings(&ts1);
    let total = heads.len() - 1;
    let sel = match select_paragraphs_for_format(index, range, target, total) {
        Some(s) => s,
        None => {
            return Err(WordCliError::InvalidParameter(
                "必须提供 --index 指定单段，或提供 --range (如 '0:25' / 'all') 进行批量排版".to_owned(),
            ));
        },
    };
    let chosen = picked_exec(&sel, &heads);
    if chosen.len() == 0 {
        return Ok(ParaOpResponse {
            status: "success".to_owned(),
            command: "para-format".to_owned(),
            affected_index: match index { Some(i) => i, None => 0 },
            affected_count: Some(0),
            file: file_path.to_owned(),
            message: "未匹配到需要格式化的正文段落（可能目标范围内全为标题段落）".to_owned(),
        });
    }
    let ts2 = match tokenize(doc.as_str(), false) {
        Ok(ts) => ts,
        Err(m) => return Err(WordCliError::XmlParseError(m)),
    };
    assert(parsed_as(doc@, false, ts2@));
    let ppr = ppr_frag_exec(indent, spacing);
    let rpr = rpr_frag_exec(font, half_points, bold);
    let out = batch_update_p_format(&ts2, &sel, &heads, ppr.as_slice(), rpr.as_slice(), strip_formatting);
    pkg.set_text("word/document.xml", string_from_chars(out.as_slice()));
    let n = chosen.len();
    let mut msg = "已成功批量更新 ".to_owned();
    push_decimal(&mut msg, n);
    push_str(&mut msg, " 个段落的格式（范围模式: target=");
    push_str(&mut msg, target);
    push_str(&mut msg, ", 已保护标题）");
    let ghost o = format_outcome(heads@, ts2@, index, crate::excel::writer::opt_name(range), target@,
        ppr_frag(indent, spacing), rpr_frag(crate::excel::writer::opt_name(font), half_points, bold), strip_formatting);
    assert(chosen@.map_values(|i: usize| i as nat)[0] == chosen@[0] as nat);
    assert(o.0 == chosen@.map_values(|i: usize| i as nat));
    Ok(ParaOpResponse {
        status: "success".to_owned(),
        command: "para-format".to_owned(),
        affected_index: chosen[0],
        affected_count: Some(n),
        file: file_path.to_owned(),
        message: msg,
    })
}

} // verus!
