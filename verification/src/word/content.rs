use vstd::prelude::*;

use crate::num::parse_bounded;
use crate::pdf::extract::has_sub;
use crate::pdf::pages::{parse_usize, parse_usize_exec, sub_chars};
use crate::text::{
    contains_chars, count_spec, decimal, find_chars, find_first, matches_at, min_usize, occurs_at, opt_view, push_decimal,
    push_str, replace_chars, replace_spec, split_acc, split_char, split_on, str_chars, string_from_chars, trim,
    trim_chars,
};
use crate::unicode::{lowercase, to_lowercase};
use crate::word::error::WordCliError;
use crate::word::package::{document_part, escape_char, escape_spec, escape_xml, part_text, DocxPackage};
use crate::word::xml::{attr_value, get_attr, is_tag, parsed_as, tag_is, tokenize, xml_events, XmlKind, XmlToken};

verus! {

/// A paragraph of the document body: its position, style and text.
pub struct ParagraphInfo {
    pub index: usize,
    pub style_id: Option<String>,
    pub text: String,
}

pub struct ReadResponse {
    pub status: String,
    pub total_matched: usize,
    pub paragraphs: Vec<ParagraphInfo>,
}

pub struct ReplaceResponse {
    pub status: String,
    pub command: String,
    pub replacements_count: usize,
    pub file: String,
    pub message: String,
}

pub struct HighlightResponse {
    pub status: String,
    pub command: String,
    pub keyword: String,
    pub color: String,
    pub matches_count: usize,
    pub file: String,
    pub message: String,
}

/// A paragraph as a value: position, style, text.
pub type ParaSpec = (nat, Option<Seq<char>>, Seq<char>);

pub open spec fn para_view(p: ParagraphInfo) -> ParaSpec {
    (p.index as nat, opt_view(p.style_id), p.text@)
}

pub open spec fn paras_view(v: Seq<ParagraphInfo>) -> Seq<ParaSpec> {
    v.map_values(|p: ParagraphInfo| para_view(p))
}

/// The style a `pStyle` tag sets: its last `val` attribute, if it has one.
pub open spec fn style_after(t: XmlToken, style: Option<Seq<char>>) -> Option<Seq<char>> {
    match attr_value(t.attrs@, "val"@) {
        Some(v) => Some(v),
        None => style,
    }
}

/// The paragraphs of a token stream from token `k` on, given how many
/// paragraphs have ended, whether one is open, and its text and style so far.
pub open spec fn paras_from(ts: Seq<XmlToken>, k: int, idx: nat, in_p: bool, text: Seq<char>, style: Option<Seq<char>>) -> Seq<ParaSpec>
    decreases ts.len() - k,
{
    if k < 0 || k >= ts.len() {
        Seq::empty()
    } else {
        let t = ts[k];
        if is_tag(t, XmlKind::Start, "p"@) {
            paras_from(ts, k + 1, idx, true, Seq::empty(), None)
        } else if (is_tag(t, XmlKind::Start, "pStyle"@) || is_tag(t, XmlKind::Empty, "pStyle"@)) && in_p {
            paras_from(ts, k + 1, idx, in_p, text, style_after(t, style))
        } else if t.kind == XmlKind::Text && in_p {
            paras_from(ts, k + 1, idx, in_p, text + t.text@, style)
        } else if is_tag(t, XmlKind::End, "p"@) {
            seq![(idx, style, text)] + paras_from(ts, k + 1, idx + 1, false, text, None)
        } else {
            paras_from(ts, k + 1, idx, in_p, text, style)
        }
    }
}

/// The paragraphs of a token stream: each `p` element's position, style
/// (`pStyle/@val`) and text.
pub open spec fn paragraphs_spec(ts: Seq<XmlToken>) -> Seq<ParaSpec> {
    paras_from(ts, 0, 0, false, Seq::empty(), None)
}

/// The paragraphs of a token stream.
pub fn paragraphs_from_tokens(ts: &Vec<XmlToken>) -> (r: Vec<ParagraphInfo>)
    requires
        ts@.len() < usize::MAX,
    ensures
        paras_view(r@) == paragraphs_spec(ts@),
{
    let mut out: Vec<ParagraphInfo> = Vec::new();
    let mut idx: usize = 0;
    let mut in_p = false;
    let mut text = String::new();
    let mut style: Option<String> = None;
    let mut k: usize = 0;
    while k < ts.len()
        invariant
            k <= ts.len(),
            ts@.len() < usize::MAX,
            idx <= k,
            paragraphs_spec(ts@) == paras_view(out@) + paras_from(ts@, k as int, idx as nat, in_p, text@, opt_view(style)),
        decreases ts.len() - k,
    {
        let t = &ts[k];
        let ghost before = paras_view(out@);
        if tag_is(t, XmlKind::Start, "p") {
            in_p = true;
            text = String::new();
            style = None;
        } else if (tag_is(t, XmlKind::Start, "pStyle") || tag_is(t, XmlKind::Empty, "pStyle")) && in_p {
            match get_attr(&t.attrs, "val") {
                Some(v) => {
                    style = Some(v);
                },
                None => {},
            }
        } else if t.kind == XmlKind::Text && in_p {
            push_str(&mut text, t.text.as_str());
        } else if tag_is(t, XmlKind::End, "p") {
            in_p = false;
            let st = style;
            style = None;
            out.push(ParagraphInfo { index: idx, style_id: st, text: text.clone() });
            assert(paras_view(out@) == before.push(para_view(out@[out@.len() - 1])));
            idx += 1;
        }
        k += 1;
    }
    out
}

/// The paragraphs of the body XML, or the reader's error.
pub fn parse_all_paragraphs(xml: &str) -> (r: Result<Vec<ParagraphInfo>, WordCliError>)
    ensures
        r matches Err(e) ==> e is XmlParseError,
        xml_events(xml@, true) matches Err(m) ==> (r matches Err(WordCliError::XmlParseError(msg))
            && msg@ == "提取正文段落解析失败: "@ + m),
        xml_events(xml@, true) matches Ok(tv) && tv.len() < usize::MAX ==> r is Ok,
        r matches Ok(v) ==> exists|ts: Seq<XmlToken>| parsed_as(xml@, true, ts) && paras_view(v@) == paragraphs_spec(ts),
{
    match tokenize(xml, true) {
        Err(m) => {
            let mut msg = "提取正文段落解析失败: ".to_owned();
            push_str(&mut msg, m.as_str());
            Err(WordCliError::XmlParseError(msg))
        },
        Ok(ts) => {
            if ts.len() == usize::MAX {
                return Err(WordCliError::XmlParseError("提取正文段落解析失败: too many XML events".to_owned()));
            }
            let v = paragraphs_from_tokens(&ts);
            Ok(v)
        },
    }
}


/// A paragraph range `start:end` (a missing or unreadable start is 0, a
/// missing or unreadable end the last index) or a single index; `None`
/// when it is neither.
pub open spec fn para_range_spec(r: Seq<char>, max_len: nat) -> Option<(nat, nat)> {
    match find_first(r, ":"@) {
        Some(i) => {
            let s: nat = match parse_usize(r.take(i)) {
                Some(v) => v,
                None => 0,
            };
            let e: nat = match parse_usize(r.skip(i + 1)) {
                Some(v) => v,
                None => if max_len > 0 {
                    (max_len - 1) as nat
                } else {
                    0
                },
            };
            Some((s, e))
        },
        None => match parse_usize(r) {
            Some(n) => Some((n, n)),
            None => None,
        },
    }
}

pub fn parse_range(range_str: &str, max_len: usize) -> (r: Result<(usize, usize), WordCliError>)
    ensures
        r matches Ok(p) ==> para_range_spec(range_str@, max_len as nat) == Some((p.0 as nat, p.1 as nat)),
        r matches Err(e) ==> para_range_spec(range_str@, max_len as nat) is None && e is InvalidParameter,
{
    let r = str_chars(range_str);
    let colon = str_chars(":");
    proof {
        reveal_strlit(":");
    }
    match find_chars(r.as_slice(), colon.as_slice()) {
        Some(i) => {
            let a = sub_chars(r.as_slice(), 0, i);
            let b = sub_chars(r.as_slice(), i + 1, r.len());
            assert(a@ == r@.take(i as int));
            assert(b@ == r@.skip(i + 1));
            let s = match parse_usize_exec(a.as_slice()) {
                Some(v) => v,
                None => 0,
            };
            let e = match parse_usize_exec(b.as_slice()) {
                Some(v) => v,
                None => if max_len > 0 { max_len - 1 } else { 0 },
            };
            Ok((s, e))
        },
        None => match parse_usize_exec(r.as_slice()) {
            Some(n) => Ok((n, n)),
            None => {
                let mut msg = "范围格式无效，应为 'start:end' 或单个序号: ".to_owned();
                push_str(&mut msg, range_str);
                Err(WordCliError::InvalidParameter(msg))
            },
        },
    }
}

/// A heading style: its id names a heading, in English or Chinese.
pub open spec fn heading_style(style: Option<Seq<char>>) -> bool {
    match style {
        Some(s) => has_sub(lowercase(s), "heading"@) || has_sub(s, "标题"@),
        None => false,
    }
}

/// The paragraphs from position `k` on that belong to the section under
/// the first heading that contains `h`: that heading, the paragraphs after
/// it up to the next heading, and again from every further heading that
/// contains `h`.
pub open spec fn heading_section(ps: Seq<ParaSpec>, k: int, in_sec: bool, h: Seq<char>) -> Seq<ParaSpec>
    decreases ps.len() - k,
{
    if k < 0 || k >= ps.len() {
        Seq::empty()
    } else {
        let p = ps[k];
        if has_sub(p.2, h) && heading_style(p.1) {
            seq![p] + heading_section(ps, k + 1, true, h)
        } else if in_sec {
            if heading_style(p.1) {
                Seq::empty()
            } else {
                seq![p] + heading_section(ps, k + 1, true, h)
            }
        } else {
            heading_section(ps, k + 1, false, h)
        }
    }
}

/// The paragraphs whose position lies in `lo..=hi`.
pub open spec fn in_index_range(ps: Seq<ParaSpec>, lo: nat, hi: nat) -> Seq<ParaSpec> {
    ps.filter(|p: ParaSpec| lo <= p.0 && p.0 <= hi)
}

/// The paragraphs that a read request selects: the section under a
/// heading when one is given, else those in the range (all by default).
pub open spec fn select_spec(ps: Seq<ParaSpec>, range: Option<Seq<char>>, heading: Option<Seq<char>>) -> Option<Seq<ParaSpec>> {
    let bounds = match range {
        Some(r) => para_range_spec(r, ps.len()),
        None => Some((0nat, ps.len())),
    };
    match bounds {
        None => None,
        Some(b) => match heading {
            Some(h) => Some(heading_section(ps, 0, false, h)),
            None => Some(in_index_range(ps, b.0, b.1)),
        },
    }
}

fn is_heading_style(style: &Option<String>) -> (b: bool)
    ensures
        b == heading_style(opt_view(*style)),
{
    match style {
        Some(s) => {
            let low = str_chars(to_lowercase(s.as_str()).as_str());
            contains_chars(low.as_slice(), str_chars("heading").as_slice()) || contains_chars(
                str_chars(s.as_str()).as_slice(),
                str_chars("标题").as_slice(),
            )
        },
        None => false,
    }
}

fn clone_para(p: &ParagraphInfo) -> (r: ParagraphInfo)
    ensures
        para_view(r) == para_view(*p),
{
    ParagraphInfo {
        index: p.index,
        style_id: match &p.style_id {
            Some(s) => Some(s.clone()),
            None => None,
        },
        text: p.text.clone(),
    }
}

/// The paragraphs that a read request selects.
pub fn select_paragraphs(all: &Vec<ParagraphInfo>, range: Option<&str>, heading: Option<&str>) -> (r: Result<Vec<ParagraphInfo>, WordCliError>)
    ensures
        r matches Ok(v) ==> select_spec(paras_view(all@), opt_str(range), opt_str(heading)) == Some(paras_view(v@)),
        r matches Err(e) ==> select_spec(paras_view(all@), opt_str(range), opt_str(heading)) is None && e is InvalidParameter,
{
    let ghost ps = paras_view(all@);
    let (lo, hi) = match range {
        Some(rs) => parse_range(rs, all.len())?,
        None => (0, all.len()),
    };
    let mut out: Vec<ParagraphInfo> = Vec::new();
    match heading {
        Some(h) => {
            let hv = str_chars(h);
            assert(select_spec(ps, opt_str(range), opt_str(heading)) == Some(heading_section(ps, 0, false, h@)));
            let mut in_sec = false;
            let mut k: usize = 0;
            while k < all.len()
                invariant
                    k <= all.len(),
                    ps == paras_view(all@),
                    hv@ == h@,
                    select_spec(ps, opt_str(range), opt_str(heading)) == Some(heading_section(ps, 0, false, h@)),
                    heading_section(ps, 0, false, h@) == paras_view(out@) + heading_section(ps, k as int, in_sec, h@),
                decreases all.len() - k,
            {
                let p = &all[k];
                let ghost before = paras_view(out@);
                assert(ps[k as int] == para_view(*p));
                let is_h = is_heading_style(&p.style_id);
                if contains_chars(str_chars(p.text.as_str()).as_slice(), hv.as_slice()) && is_h {
                    in_sec = true;
                    out.push(clone_para(p));
                    assert(paras_view(out@) == before.push(para_view(*p)));
                } else if in_sec {
                    if is_h {
                        assert(heading_section(ps, k as int, in_sec, h@) == Seq::<ParaSpec>::empty());
                        assert(paras_view(out@) + Seq::<ParaSpec>::empty() == paras_view(out@));
                        return Ok(out);
                    }
                    out.push(clone_para(p));
                    assert(paras_view(out@) == before.push(para_view(*p)));
                }
                k += 1;
            }
            assert(paras_view(out@) + Seq::<ParaSpec>::empty() == paras_view(out@));
            Ok(out)
        },
        None => {
            let mut k: usize = 0;
            while k < all.len()
                invariant
                    k <= all.len(),
                    ps == paras_view(all@),
                    paras_view(out@) == in_index_range(ps.take(k as int), lo as nat, hi as nat),
                decreases all.len() - k,
            {
                let p = &all[k];
                assert(ps[k as int] == para_view(*p));
                let ghost before = paras_view(out@);
                if p.index >= lo && p.index <= hi {
                    out.push(clone_para(p));
                    assert(paras_view(out@) == before.push(para_view(*p)));
                }
                proof {
                    reveal_with_fuel(Seq::<_>::filter, 1);
                    assert(ps.take(k + 1).drop_last() == ps.take(k as int));
                }
                k += 1;
            }
            assert(ps.take(all.len() as int) == ps);
            Ok(out)
        },
    }
}

pub open spec fn opt_str(o: Option<&str>) -> Option<Seq<char>> {
    match o {
        Some(s) => Some(s@),
        None => None,
    }
}

/// Reads the paragraphs of the body that a range or a heading selects.
pub fn read_paragraphs(pkg: &DocxPackage, range: Option<&str>, heading: Option<&str>) -> (r: Result<ReadResponse, WordCliError>)
    ensures
        r matches Ok(resp) ==> resp.status@ == "success"@ && resp.total_matched == resp.paragraphs@.len()
            && (part_text(pkg@, document_part()) matches Ok(d) && exists|ts: Seq<XmlToken>| parsed_as(d, true, ts)
            && select_spec(paragraphs_spec(ts), opt_str(range), opt_str(heading)) == Some(paras_view(resp.paragraphs@))),
        part_text(pkg@, document_part()) == Err::<Seq<char>, int>(0) ==> (r matches Err(e) && e is NotFound),
        part_text(pkg@, document_part()) == Err::<Seq<char>, int>(1) ==> (r matches Err(e) && e is CorruptedDocument),
        part_text(pkg@, document_part()) matches Ok(d) ==> match xml_events(d, true) {
            Err(_) => r matches Err(e) && e is XmlParseError,
            Ok(tv) => tv.len() < usize::MAX ==> (r is Ok <==> exists|ts: Seq<XmlToken>| parsed_as(d, true, ts)
                && select_spec(paragraphs_spec(ts), opt_str(range), opt_str(heading)) is Some)
                && (r matches Err(e) ==> e is InvalidParameter),
        },
{
    let doc_xml = pkg.get_text("word/document.xml")?;
    let all = parse_all_paragraphs(doc_xml.as_str())?;
    let v = select_paragraphs(&all, range, heading)?;
    let n = v.len();
    Ok(ReadResponse { status: "success".to_owned(), total_matched: n, paragraphs: v })
}


pub type Pair = (Seq<char>, Seq<char>);

/// Sets the replacement for `k`, in place when `k` is already there, else
/// at the end (the order in which patterns first appear).
pub open spec fn upsert(ps: Seq<Pair>, k: Seq<char>, v: Seq<char>) -> Seq<Pair>
    decreases ps.len(),
{
    if ps.len() == 0 {
        seq![(k, v)]
    } else if ps[0].0 == k {
        seq![(k, v)] + ps.skip(1)
    } else {
        seq![ps[0]] + upsert(ps.skip(1), k, v)
    }
}

/// Adds each `key=value` piece (trimmed, the value escaped for XML).
pub open spec fn pairs_from(pieces: Seq<Seq<char>>, acc: Seq<Pair>) -> Seq<Pair>
    decreases pieces.len(),
{
    if pieces.len() == 0 {
        acc
    } else {
        let p = pieces[0];
        let acc2 = match find_first(p, "="@) {
            Some(i) => upsert(acc, trim(p.take(i)), escape_spec(trim(p.skip(i + 1)))),
            None => acc,
        };
        pairs_from(pieces.skip(1), acc2)
    }
}

/// The replacements requested: `from` by `to` (escaped), then each
/// `key=value` of the comma-separated pairs.
pub open spec fn replacements_spec(from: Option<Seq<char>>, to: Option<Seq<char>>, pairs: Option<Seq<char>>) -> Seq<Pair> {
    let m0: Seq<Pair> = match (from, to) {
        (Some(f), Some(t)) => seq![(f, escape_spec(t))],
        _ => Seq::empty(),
    };
    match pairs {
        Some(p) => pairs_from(split_char(p, ','), m0),
        None => m0,
    }
}

pub open spec fn pairs_view(v: Seq<(Vec<char>, Vec<char>)>) -> Seq<Pair> {
    v.map_values(|p: (Vec<char>, Vec<char>)| (p.0@, p.1@))
}

fn upsert_exec(ps: Vec<(Vec<char>, Vec<char>)>, k: Vec<char>, v: Vec<char>) -> (r: Vec<(Vec<char>, Vec<char>)>)
    ensures
        pairs_view(r@) == upsert(pairs_view(ps@), k@, v@),
{
    let ghost pv = pairs_view(ps@);
    let mut out: Vec<(Vec<char>, Vec<char>)> = Vec::new();
    let mut replaced = false;
    let mut i: usize = 0;
    let mut entry: Option<(Vec<char>, Vec<char>)> = Some((k, v));
    let ghost kk = k@;
    let ghost vv = v@;
    assert(pv.skip(0) == pv);
    while i < ps.len()
        invariant
            i <= ps.len(),
            pv == pairs_view(ps@),
            replaced <==> entry is None,
            entry matches Some(e) ==> e.0@ == kk && e.1@ == vv,
            upsert(pv, kk, vv) == pairs_view(out@) + (if replaced { pv.skip(i as int) } else { upsert(pv.skip(i as int), kk, vv) }),
        decreases ps.len() - i,
    {
        let ghost rest = pv.skip(i as int);
        assert(rest[0] == pv[i as int]);
        assert(rest.skip(1) == pv.skip(i + 1));
        let ghost before = pairs_view(out@);
        let cur = (ps[i].0.clone(), ps[i].1.clone());
        if !replaced && crate::text::chars_eq(ps[i].0.as_slice(), kk_exec(&entry)) {
            let e = entry.unwrap();
            entry = None;
            replaced = true;
            out.push(e);
            assert(pairs_view(out@) == before.push((kk, vv)));
            assert(seq![(kk, vv)] + rest.skip(1) == before.push((kk, vv)).skip(before.len() as int) + rest.skip(1));
        } else {
            out.push(cur);
            assert(pairs_view(out@) == before.push(pv[i as int]));
        }
        i += 1;
    }
    if !replaced {
        let e = entry.unwrap();
        let ghost before = pairs_view(out@);
        out.push(e);
        assert(pairs_view(out@) == before.push((kk, vv)));
    } else {
        assert(pv.skip(ps.len() as int) == Seq::<Pair>::empty());
    }
    out
}

fn kk_exec(entry: &Option<(Vec<char>, Vec<char>)>) -> (r: &[char])
    ensures
        entry matches Some(e) ==> r@ == e.0@,
{
    match entry {
        Some(e) => e.0.as_slice(),
        None => &[],
    }
}

/// The replacements in turn on a paragraph's text, each key that is not
/// empty replaced by its value, and the number of occurrences replaced.
pub open spec fn apply_text_pairs(x: Seq<char>, ps: Seq<Pair>) -> (Seq<char>, nat)
    decreases ps.len(),
{
    if ps.len() == 0 {
        (x, 0)
    } else {
        let c: nat = if ps[0].0.len() == 0 { 0 } else { count_spec(x, ps[0].0) };
        let x2 = if c > 0 { replace_spec(x, ps[0].0, ps[0].1) } else { x };
        let rest = apply_text_pairs(x2, ps.skip(1));
        (rest.0, c + rest.1)
    }
}

/// The text of the `w:t` elements among tokens `k..` of `b`, as written in
/// the document (entities kept), run after run.
pub open spec fn wt_text(b: Seq<XmlToken>, k: int, in_t: bool) -> Seq<char>
    decreases b.len() - k,
{
    if k < 0 || k >= b.len() {
        Seq::empty()
    } else {
        let t = b[k];
        if is_tag(t, XmlKind::Start, "t"@) {
            wt_text(b, k + 1, true)
        } else if is_tag(t, XmlKind::End, "t"@) {
            wt_text(b, k + 1, false)
        } else if t.kind == XmlKind::Text && in_t {
            t.raw@ + wt_text(b, k + 1, in_t)
        } else {
            wt_text(b, k + 1, in_t)
        }
    }
}

/// Tokens `k..` of `b` as written, but for the text inside `w:t`
/// elements: the first such text gives way to `y`, the later ones to
/// nothing; tags and attributes stay as they were.
pub open spec fn wt_rewrite(b: Seq<XmlToken>, k: int, in_t: bool, first: bool, y: Seq<char>) -> Seq<char>
    decreases b.len() - k,
{
    if k < 0 || k >= b.len() {
        Seq::empty()
    } else {
        let t = b[k];
        if is_tag(t, XmlKind::Start, "t"@) {
            t.raw@ + wt_rewrite(b, k + 1, true, first, y)
        } else if is_tag(t, XmlKind::End, "t"@) {
            t.raw@ + wt_rewrite(b, k + 1, false, first, y)
        } else if t.kind == XmlKind::Text && in_t {
            (if first { y } else { Seq::empty() }) + wt_rewrite(b, k + 1, in_t, false, y)
        } else {
            t.raw@ + wt_rewrite(b, k + 1, in_t, first, y)
        }
    }
}

/// Tokens `k..` of `b` as written.
pub open spec fn raws(b: Seq<XmlToken>, k: int) -> Seq<char>
    decreases b.len() - k,
{
    if k < 0 || k >= b.len() {
        Seq::empty()
    } else {
        b[k].raw@ + raws(b, k + 1)
    }
}

/// One paragraph (its tokens up to its end tag) after the replacements:
/// when any occurrence is found in the text of its `w:t` elements, taken
/// together across runs, the replaced text goes into the paragraph's first
/// `w:t` text and its other `w:t` texts are emptied; otherwise it is written
/// as it was.
pub open spec fn para_replaced(b: Seq<XmlToken>, ps: Seq<Pair>) -> (Seq<char>, nat) {
    let a = apply_text_pairs(wt_text(b, 0, false), ps);
    if a.1 > 0 {
        (wt_rewrite(b, 0, false, true, a.0), a.1)
    } else {
        (raws(b, 0), 0)
    }
}

/// The body from token `k` on after the replacements, paragraph by
/// paragraph (`start`: where the paragraph being read began, -1 outside
/// one), and the number of occurrences replaced.
pub open spec fn replace_fold(ts: Seq<XmlToken>, k: int, ps: Seq<Pair>, start: int) -> (Seq<char>, nat)
    decreases ts.len() - k,
{
    if k < 0 || k >= ts.len() {
        if 0 <= start <= ts.len() { (raws(ts.subrange(start, ts.len() as int), 0), 0) } else { (Seq::empty(), 0) }
    } else {
        let t = ts[k];
        if start < 0 {
            if is_tag(t, XmlKind::Start, "p"@) {
                replace_fold(ts, k + 1, ps, k)
            } else {
                let r = replace_fold(ts, k + 1, ps, -1);
                (t.raw@ + r.0, r.1)
            }
        } else if is_tag(t, XmlKind::End, "p"@) {
            let po = para_replaced(ts.subrange(start, k), ps);
            let r = replace_fold(ts, k + 1, ps, -1);
            (po.0 + t.raw@ + r.0, po.1 + r.1)
        } else {
            replace_fold(ts, k + 1, ps, start)
        }
    }
}

fn wt_text_exec(ts: &Vec<XmlToken>, lo: usize, hi: usize) -> (r: Vec<char>)
    requires
        lo <= hi <= ts.len(),
    ensures
        r@ == wt_text(ts@.subrange(lo as int, hi as int), 0, false),
{
    let ghost b = ts@.subrange(lo as int, hi as int);
    let mut out: Vec<char> = Vec::new();
    let mut in_t = false;
    let mut j = lo;
    while j < hi
        invariant
            lo <= j <= hi <= ts.len(),
            b == ts@.subrange(lo as int, hi as int),
            wt_text(b, 0, false) == out@ + wt_text(b, j - lo, in_t),
        decreases hi - j,
    {
        let t = &ts[j];
        assert(b[j - lo] == ts@[j as int]);
        if tag_is(t, XmlKind::Start, "t") {
            in_t = true;
        } else if tag_is(t, XmlKind::End, "t") {
            in_t = false;
        } else if t.kind == XmlKind::Text && in_t {
            crate::text::extend_chars(&mut out, str_chars(t.raw.as_str()).as_slice());
        }
        j += 1;
    }
    out
}

fn wt_rewrite_exec(ts: &Vec<XmlToken>, lo: usize, hi: usize, y: &[char], out: &mut Vec<char>)
    requires
        lo <= hi <= ts.len(),
    ensures
        final(out)@ == old(out)@ + wt_rewrite(ts@.subrange(lo as int, hi as int), 0, false, true, y@),
{
    let ghost b = ts@.subrange(lo as int, hi as int);
    let ghost o = out@;
    let mut in_t = false;
    let mut first = true;
    let mut j = lo;
    while j < hi
        invariant
            lo <= j <= hi <= ts.len(),
            b == ts@.subrange(lo as int, hi as int),
            o + wt_rewrite(b, 0, false, true, y@) == out@ + wt_rewrite(b, j - lo, in_t, first, y@),
        decreases hi - j,
    {
        let t = &ts[j];
        assert(b[j - lo] == ts@[j as int]);
        let raw = str_chars(t.raw.as_str());
        if tag_is(t, XmlKind::Start, "t") {
            in_t = true;
            crate::text::extend_chars(out, raw.as_slice());
        } else if tag_is(t, XmlKind::End, "t") {
            in_t = false;
            crate::text::extend_chars(out, raw.as_slice());
        } else if t.kind == XmlKind::Text && in_t {
            if first {
                crate::text::extend_chars(out, y);
            }
            first = false;
        } else {
            crate::text::extend_chars(out, raw.as_slice());
        }
        j += 1;
    }
}

fn raws_exec(ts: &Vec<XmlToken>, lo: usize, hi: usize, out: &mut Vec<char>)
    requires
        lo <= hi <= ts.len(),
    ensures
        final(out)@ == old(out)@ + raws(ts@.subrange(lo as int, hi as int), 0),
{
    let ghost b = ts@.subrange(lo as int, hi as int);
    let ghost o = out@;
    let mut j = lo;
    while j < hi
        invariant
            lo <= j <= hi <= ts.len(),
            b == ts@.subrange(lo as int, hi as int),
            o + raws(b, 0) == out@ + raws(b, j - lo),
        decreases hi - j,
    {
        assert(b[j - lo] == ts@[j as int]);
        crate::text::extend_chars(out, str_chars(ts[j].raw.as_str()).as_slice());
        j += 1;
    }
}

fn apply_text_pairs_exec(x: Vec<char>, map: &Vec<(Vec<char>, Vec<char>)>) -> (r: (Vec<char>, usize))
    ensures
        r.0@ == apply_text_pairs(x@, pairs_view(map@)).0,
        r.1 == min_usize(apply_text_pairs(x@, pairs_view(map@)).1),
{
    let ghost pairs = pairs_view(map@);
    let ghost full = apply_text_pairs(x@, pairs);
    let mut cur = x;
    let mut total: usize = 0;
    let mut j: usize = 0;
    assert(pairs.skip(0) == pairs);
    while j < map.len()
        invariant
            j <= map.len(),
            pairs == pairs_view(map@),
            full.0 == apply_text_pairs(cur@, pairs.skip(j as int)).0,
            min_usize(full.1) == min_usize(total as nat + apply_text_pairs(cur@, pairs.skip(j as int)).1),
        decreases map.len() - j,
    {
        let ghost rest = pairs.skip(j as int);
        assert(rest[0] == (map@[j as int].0@, map@[j as int].1@));
        assert(rest.skip(1) == pairs.skip(j + 1));
        if map[j].0.len() > 0 {
            let (replaced, c) = replace_chars(cur.as_slice(), map[j].0.as_slice(), map[j].1.as_slice());
            if c > 0 {
                cur = replaced;
            }
            total = if total > usize::MAX - c { usize::MAX } else { total + c };
        }
        j += 1;
    }
    assert(pairs.skip(map.len() as int) == Seq::<Pair>::empty());
    (cur, total)
}

/// Writes the body with the replacements made paragraph by paragraph (see
/// `replace_fold`), and counts the occurrences replaced.
pub fn replace_in_paragraphs(ts: &Vec<XmlToken>, map: &Vec<(Vec<char>, Vec<char>)>) -> (r: (Vec<char>, usize))
    ensures
        r.0@ == replace_fold(ts@, 0, pairs_view(map@), -1).0,
        r.1 == min_usize(replace_fold(ts@, 0, pairs_view(map@), -1).1),
{
    let ghost ps = pairs_view(map@);
    let ghost f0 = replace_fold(ts@, 0, ps, -1);
    let mut out: Vec<char> = Vec::new();
    let mut total: usize = 0;
    let mut in_p = false;
    let mut start: usize = 0;
    let mut k: usize = 0;
    while k < ts.len()
        invariant
            k <= ts.len(),
            ps == pairs_view(map@),
            in_p ==> start < k,
            f0.0 == out@ + replace_fold(ts@, k as int, ps, if in_p { start as int } else { -1 }).0,
            min_usize(f0.1) == min_usize(total as nat + replace_fold(ts@, k as int, ps, if in_p { start as int } else { -1 }).1),
        decreases ts.len() - k,
    {
        let t = &ts[k];
        if !in_p {
            if tag_is(t, XmlKind::Start, "p") {
                in_p = true;
                start = k;
            } else {
                crate::text::extend_chars(&mut out, str_chars(t.raw.as_str()).as_slice());
            }
        } else if tag_is(t, XmlKind::End, "p") {
            let x = wt_text_exec(ts, start, k);
            let (y, c) = apply_text_pairs_exec(x, map);
            if c > 0 {
                wt_rewrite_exec(ts, start, k, y.as_slice(), &mut out);
            } else {
                raws_exec(ts, start, k, &mut out);
            }
            crate::text::extend_chars(&mut out, str_chars(t.raw.as_str()).as_slice());
            total = if total > usize::MAX - c { usize::MAX } else { total + c };
            in_p = false;
        }
        k += 1;
    }
    if in_p {
        raws_exec(ts, start, ts.len(), &mut out);
    }
    (out, total)
}

/// Replaces text in the paragraphs of the document (`from` by `to`, and
/// each `key=value` of `pairs_str`), counting the occurrences replaced. Only
/// the text of `w:t` elements is searched, taken together across the runs
/// of a paragraph, so a placeholder split over several runs is found; a
/// paragraph with a hit gets its replaced text in its first `w:t`, its other
/// `w:t` texts emptied (see `replace_fold`). Nothing changes when nothing is
/// found. The caller writes the package out.
pub fn replace_text(pkg: &mut DocxPackage, file_path: &str, from_pattern: Option<&str>, to_text: Option<&str>, pairs_str: Option<&str>) -> (r: Result<ReplaceResponse, WordCliError>)
    ensures
        replacements_spec(opt_str(from_pattern), opt_str(to_text), opt_str(pairs_str)).len() == 0 ==> (r matches Err(e) && e is InvalidParameter) && final(pkg)@ == old(pkg)@,
        replacements_spec(opt_str(from_pattern), opt_str(to_text), opt_str(pairs_str)).len() > 0 ==> match part_text(old(pkg)@, document_part()) {
            Err(code) => (r matches Err(e) && (if code == 0 { e is NotFound } else { e is CorruptedDocument })) && final(pkg)@ == old(pkg)@,
            Ok(doc) => match xml_events(doc, false) {
                Err(m) => (r matches Err(WordCliError::XmlParseError(x)) && x@ == m) && final(pkg)@ == old(pkg)@,
                Ok(_) => exists|ts: Seq<XmlToken>| #[trigger] parsed_as(doc, false, ts) && {
                    let res = replace_fold(ts, 0, replacements_spec(opt_str(from_pattern), opt_str(to_text), opt_str(pairs_str)), -1);
                    &&& r matches Ok(resp)
                    &&& resp.status@ == "success"@
                    &&& resp.command@ == "replace"@
                    &&& resp.replacements_count == min_usize(res.1)
                    &&& resp.file@ == file_path@
                    &&& resp.message@ == "已完成文本替换，共命中替换 "@ + decimal(min_usize(res.1) as nat) + " 处"@
                    &&& final(pkg)@ == if res.1 > 0 {
                        old(pkg)@.insert(document_part(), vstd::utf8::encode_utf8(res.0))
                    } else {
                        old(pkg)@
                    }
                },
            },
        },
{
    let ghost m0: Seq<Pair> = match (opt_str(from_pattern), opt_str(to_text)) {
        (Some(f), Some(t)) => seq![(f, escape_spec(t))],
        _ => Seq::empty(),
    };
    let mut map: Vec<(Vec<char>, Vec<char>)> = Vec::new();
    match (from_pattern, to_text) {
        (Some(f), Some(t)) => {
            map.push((str_chars(f), str_chars(escape_xml(t).as_str())));
        },
        _ => {},
    }
    assert(pairs_view(map@) == m0);
    match pairs_str {
        Some(ps) => {
            let pieces = split_on(str_chars(ps).as_slice(), ',');
            let ghost pv = pieces@.map_values(|v: Vec<char>| v@);
            let eq = str_chars("=");
            proof {
                reveal_strlit("=");
            }
            let mut k: usize = 0;
            assert(pv.skip(0) == pv);
            while k < pieces.len()
                invariant
                    k <= pieces.len(),
                    pv == pieces@.map_values(|v: Vec<char>| v@),
                    pv == split_char(ps@, ','),
                    eq@ == "="@,
                    eq@.len() == 1,
                    pairs_from(pv, m0) == pairs_from(pv.skip(k as int), pairs_view(map@)),
                decreases pieces.len() - k,
            {
                let ghost rest = pv.skip(k as int);
                assert(rest[0] == pieces@[k as int]@);
                assert(rest.skip(1) == pv.skip(k + 1));
                let piece = &pieces[k];
                match find_chars(piece.as_slice(), eq.as_slice()) {
                    Some(i) => {
                        assert(occurs_at(piece@, eq@, i as int));
                        assert(i + 1 <= piece@.len());
                        assert(i < piece.len());
                        let after: usize = i + 1;
                        let key = trim_chars(sub_chars(piece.as_slice(), 0, i).as_slice());
                        let val = trim_chars(sub_chars(piece.as_slice(), after, piece.len()).as_slice());
                        assert(piece@.subrange(0, i as int) == piece@.take(i as int));
                        assert(piece@.subrange(i + 1, piece@.len() as int) == piece@.skip(i + 1));
                        let esc = escape_xml(string_from_chars(val.as_slice()).as_str());
                        map = upsert_exec(map, key, str_chars(esc.as_str()));
                    },
                    None => {},
                }
                k += 1;
            }
        },
        None => {},
    }
    let ghost pairs = replacements_spec(opt_str(from_pattern), opt_str(to_text), opt_str(pairs_str));
    assert(pairs_view(map@) == pairs);
    if map.len() == 0 {
        return Err(WordCliError::InvalidParameter("必须提供 --from 和 --to，或者提供 --pairs 键值对映射".to_owned()));
    }
    let doc_xml = pkg.get_text("word/document.xml")?;
    let ts = match tokenize(doc_xml.as_str(), false) {
        Ok(ts) => ts,
        Err(m) => return Err(WordCliError::XmlParseError(m)),
    };
    assert(parsed_as(doc_xml@, false, ts@));
    let (out, total) = replace_in_paragraphs(&ts, &map);
    if total > 0 {
        pkg.set_text("word/document.xml", string_from_chars(out.as_slice()));
    }
    let mut msg = "已完成文本替换，共命中替换 ".to_owned();
    push_decimal(&mut msg, total);
    push_str(&mut msg, " 处");
    Ok(ReplaceResponse {
        status: "success".to_owned(),
        command: "replace".to_owned(),
        replacements_count: total,
        file: file_path.to_owned(),
        message: msg,
    })
}


/// The run that stands for a highlighted keyword.
pub open spec fn highlight_run(color: Seq<char>, keyword: Seq<char>) -> Seq<char> {
    "<w:r><w:rPr><w:highlight w:val=\""@ + color + "\"/></w:rPr><w:t xml:space=\"preserve\">"@
        + escape_spec(keyword) + "</w:t></w:r>"@
}

pub open spec fn highlight_message(keyword: Seq<char>, color: Seq<char>, n: nat) -> Seq<char> {
    if color == "none"@ {
        "已清除关键词 ["@ + keyword + "] 的高亮标注，共 "@ + decimal(n) + " 处"@
    } else {
        "已成功为关键词 ["@ + keyword + "] 应用 "@ + color + " 高亮，共 "@ + decimal(n) + " 处"@
    }
}

/// What stands between the text before a highlighted keyword and the text
/// after it: the current `w:t` and run are closed, the keyword gets a run of
/// its own, and a plain run is opened for the rest.
pub open spec fn highlight_cut(color: Seq<char>, keyword: Seq<char>) -> Seq<char> {
    "</w:t></w:r>"@ + highlight_run(color, keyword) + "<w:r><w:t xml:space=\"preserve\">"@
}

/// A text (unescaped) from position `i` on, written with every occurrence
/// of `kw` cut out as `mid` and every other character escaped; and the
/// number of occurrences.
pub open spec fn hl_from(s: Seq<char>, i: int, kw: Seq<char>, mid: Seq<char>) -> (Seq<char>, nat)
    decreases s.len() - i,
{
    if i < 0 || i >= s.len() {
        (Seq::empty(), 0)
    } else if kw.len() > 0 && occurs_at(s, kw, i) {
        let r = hl_from(s, i + kw.len(), kw, mid);
        (mid + r.0, r.1 + 1)
    } else {
        let r = hl_from(s, i + 1, kw, mid);
        (escape_char(s[i]) + r.0, r.1)
    }
}

/// The body from token `k` on with the keyword highlighted in the text of
/// `w:t` elements: a text holding it is rewritten (see `hl_from`), any other
/// token written as it was; and the number of occurrences.
pub open spec fn hl_fold(ts: Seq<XmlToken>, k: int, in_t: bool, kw: Seq<char>, mid: Seq<char>) -> (Seq<char>, nat)
    decreases ts.len() - k,
{
    if k < 0 || k >= ts.len() {
        (Seq::empty(), 0)
    } else {
        let t = ts[k];
        if is_tag(t, XmlKind::Start, "t"@) {
            let r = hl_fold(ts, k + 1, true, kw, mid);
            (t.raw@ + r.0, r.1)
        } else if is_tag(t, XmlKind::End, "t"@) {
            let r = hl_fold(ts, k + 1, false, kw, mid);
            (t.raw@ + r.0, r.1)
        } else if t.kind == XmlKind::Text && in_t && hl_from(t.text@, 0, kw, mid).1 > 0 {
            let h = hl_from(t.text@, 0, kw, mid);
            let r = hl_fold(ts, k + 1, in_t, kw, mid);
            (h.0 + r.0, h.1 + r.1)
        } else {
            let r = hl_fold(ts, k + 1, in_t, kw, mid);
            (t.raw@ + r.0, r.1)
        }
    }
}

fn push_escaped_char(out: &mut Vec<char>, c: char)
    ensures
        final(out)@ == old(out)@ + escape_char(c),
{
    if c == '&' {
        crate::text::extend_chars(out, str_chars("&amp;").as_slice());
    } else if c == '<' {
        crate::text::extend_chars(out, str_chars("&lt;").as_slice());
    } else if c == '>' {
        crate::text::extend_chars(out, str_chars("&gt;").as_slice());
    } else if c == '"' {
        crate::text::extend_chars(out, str_chars("&quot;").as_slice());
    } else if c == '\'' {
        crate::text::extend_chars(out, str_chars("&apos;").as_slice());
    } else {
        out.push(c);
        assert(escape_char(c) == seq![c]);
    }
}

fn hl_text_exec(s: &[char], kw: &[char], mid: &[char]) -> (r: (Vec<char>, usize))
    requires
        kw@.len() > 0,
    ensures
        r.0@ == hl_from(s@, 0, kw@, mid@).0,
        r.1 == min_usize(hl_from(s@, 0, kw@, mid@).1),
{
    let ghost f0 = hl_from(s@, 0, kw@, mid@);
    let mut out: Vec<char> = Vec::new();
    let mut n: usize = 0;
    let mut i: usize = 0;
    while i < s.len()
        invariant
            i <= s.len(),
            kw@.len() > 0,
            f0.0 == out@ + hl_from(s@, i as int, kw@, mid@).0,
            min_usize(f0.1) == min_usize(n as nat + hl_from(s@, i as int, kw@, mid@).1),
        decreases s.len() - i,
    {
        if matches_at(s, kw, i) {
            crate::text::extend_chars(&mut out, mid);
            n = if n == usize::MAX { n } else { n + 1 };
            i = i + kw.len();
        } else {
            push_escaped_char(&mut out, s[i]);
            i += 1;
        }
    }
    (out, n)
}

/// Highlights the keyword in the text of every `w:t` element (see
/// `hl_fold`).
pub fn highlight_in_text(ts: &Vec<XmlToken>, kw: &[char], mid: &[char]) -> (r: (Vec<char>, usize))
    requires
        kw@.len() > 0,
    ensures
        r.0@ == hl_fold(ts@, 0, false, kw@, mid@).0,
        r.1 == min_usize(hl_fold(ts@, 0, false, kw@, mid@).1),
{
    let ghost f0 = hl_fold(ts@, 0, false, kw@, mid@);
    let mut out: Vec<char> = Vec::new();
    let mut n: usize = 0;
    let mut in_t = false;
    let mut k: usize = 0;
    while k < ts.len()
        invariant
            k <= ts.len(),
            kw@.len() > 0,
            f0.0 == out@ + hl_fold(ts@, k as int, in_t, kw@, mid@).0,
            min_usize(f0.1) == min_usize(n as nat + hl_fold(ts@, k as int, in_t, kw@, mid@).1),
        decreases ts.len() - k,
    {
        let t = &ts[k];
        let raw = str_chars(t.raw.as_str());
        if tag_is(t, XmlKind::Start, "t") {
            in_t = true;
            crate::text::extend_chars(&mut out, raw.as_slice());
        } else if tag_is(t, XmlKind::End, "t") {
            in_t = false;
            crate::text::extend_chars(&mut out, raw.as_slice());
        } else if t.kind == XmlKind::Text && in_t {
            let (h, c) = hl_text_exec(str_chars(t.text.as_str()).as_slice(), kw, mid);
            if c > 0 {
                crate::text::extend_chars(&mut out, h.as_slice());
                n = if n > usize::MAX - c { usize::MAX } else { n + c };
            } else {
                crate::text::extend_chars(&mut out, raw.as_slice());
            }
        } else {
            crate::text::extend_chars(&mut out, raw.as_slice());
        }
        k += 1;
    }
    (out, n)
}

/// Gives every occurrence of `keyword` in the text of the document's `w:t`
/// elements a run of its own highlighted with `color` (lowercased; `none`
/// clears highlighting); the text on either side stays in plain runs (see
/// `hl_fold`). Nothing changes when the keyword is not found. The caller
/// writes the package out.
pub fn set_highlight(pkg: &mut DocxPackage, file_path: &str, keyword: &str, color: &str) -> (r: Result<HighlightResponse, WordCliError>)
    ensures
        keyword@.len() == 0 ==> (r matches Err(e) && e is InvalidParameter) && final(pkg)@ == old(pkg)@,
        keyword@.len() > 0 ==> match part_text(old(pkg)@, document_part()) {
            Err(code) => (r matches Err(e) && (if code == 0 { e is NotFound } else { e is CorruptedDocument })) && final(pkg)@ == old(pkg)@,
            Ok(doc) => match xml_events(doc, false) {
                Err(m) => (r matches Err(WordCliError::XmlParseError(x)) && x@ == m) && final(pkg)@ == old(pkg)@,
                Ok(_) => exists|ts: Seq<XmlToken>| #[trigger] parsed_as(doc, false, ts) && {
                    let c = lowercase(color@);
                    let h = hl_fold(ts, 0, false, keyword@, highlight_cut(c, keyword@));
                    &&& r matches Ok(resp)
                    &&& resp.status@ == "success"@
                    &&& resp.command@ == "highlight"@
                    &&& resp.keyword@ == keyword@
                    &&& resp.color@ == c
                    &&& resp.matches_count == min_usize(h.1)
                    &&& resp.file@ == file_path@
                    &&& resp.message@ == highlight_message(keyword@, c, min_usize(h.1) as nat)
                    &&& final(pkg)@ == if h.1 > 0 {
                        old(pkg)@.insert(document_part(), vstd::utf8::encode_utf8(h.0))
                    } else {
                        old(pkg)@
                    }
                },
            },
        },
{
    if keyword.is_empty() {
        return Err(WordCliError::InvalidParameter("必须提供待检索高亮的 --text 关键词".to_owned()));
    }
    let doc_xml = pkg.get_text("word/document.xml")?;
    let ts = match tokenize(doc_xml.as_str(), false) {
        Ok(ts) => ts,
        Err(m) => return Err(WordCliError::XmlParseError(m)),
    };
    assert(parsed_as(doc_xml@, false, ts@));
    let target_color = to_lowercase(color);
    let mut mid = "</w:t></w:r><w:r><w:rPr><w:highlight w:val=\"".to_owned();
    push_str(&mut mid, target_color.as_str());
    push_str(&mut mid, "\"/></w:rPr><w:t xml:space=\"preserve\">");
    push_str(&mut mid, escape_xml(keyword).as_str());
    push_str(&mut mid, "</w:t></w:r><w:r><w:t xml:space=\"preserve\">");
    proof {
        reveal_strlit("</w:t></w:r>");
        reveal_strlit("<w:r><w:rPr><w:highlight w:val=\"");
        reveal_strlit("</w:t></w:r><w:r><w:rPr><w:highlight w:val=\"");
        reveal_strlit("\"/></w:rPr><w:t xml:space=\"preserve\">");
        reveal_strlit("</w:t></w:r><w:r><w:t xml:space=\"preserve\">");
        reveal_strlit("<w:r><w:t xml:space=\"preserve\">");
    }
    assert(mid@ == highlight_cut(target_color@, keyword@));
    let kw = str_chars(keyword);
    let (replaced, count) = highlight_in_text(&ts, kw.as_slice(), str_chars(mid.as_str()).as_slice());
    if count > 0 {
        pkg.set_text("word/document.xml", string_from_chars(replaced.as_slice()));
    }
    let is_none = crate::text::chars_eq(str_chars(target_color.as_str()).as_slice(), str_chars("none").as_slice());
    let mut msg = String::new();
    if is_none {
        push_str(&mut msg, "已清除关键词 [");
        push_str(&mut msg, keyword);
        push_str(&mut msg, "] 的高亮标注，共 ");
        push_decimal(&mut msg, count);
        push_str(&mut msg, " 处");
    } else {
        push_str(&mut msg, "已成功为关键词 [");
        push_str(&mut msg, keyword);
        push_str(&mut msg, "] 应用 ");
        push_str(&mut msg, target_color.as_str());
        push_str(&mut msg, " 高亮，共 ");
        push_decimal(&mut msg, count);
        push_str(&mut msg, " 处");
    }
    Ok(HighlightResponse {
        status: "success".to_owned(),
        command: "highlight".to_owned(),
        keyword: keyword.to_owned(),
        color: target_color,
        matches_count: count,
        file: file_path.to_owned(),
        message: msg,
    })
}

proof fn lemma_split_without_sep(x: Seq<char>, sep: char, cur: Seq<char>)
    requires
        forall|i: int| 0 <= i < x.len() ==> x[i] != sep,
    ensures
        split_acc(x, sep, cur) == seq![cur + x],
    decreases x.len(),
{
    if x.len() == 0 {
        assert(cur + x == cur);
    } else {
        assert forall|i: int| 0 <= i < x.skip(1).len() implies x.skip(1)[i] != sep by {
            assert(x.skip(1)[i] == x[i + 1]);
        }
        lemma_split_without_sep(x.skip(1), sep, cur.push(x[0]));
        assert(cur.push(x[0]) + x.skip(1) == cur + x);
    }
}

proof fn lemma_first_at(x: Seq<char>, p: Seq<char>, k: int)
    requires
        occurs_at(x, p, k),
        forall|j: int| 0 <= j < k ==> !occurs_at(x, p, j),
    ensures
        find_first(x, p) == Some(k),
{
    reveal(find_first);
    let i = find_first(x, p).unwrap();
    assert(occurs_at(x, p, i) && forall|j: int| 0 <= j < i ==> !occurs_at(x, p, j));
    if i > k {
        assert(!occurs_at(x, p, k));
    }
}

/// Giving a replacement as `from` and `to`, or as the pair `from=to`,
/// asks for the same replacement, when the two are written without blanks
/// around them, `from` holds no `=` and neither holds a comma.
#[verifier::rlimit(30)]
pub proof fn law_pair_forms_agree(f: Seq<char>, t: Seq<char>)
    requires
        trim(f) == f,
        trim(t) == t,
        forall|i: int| 0 <= i < f.len() ==> f[i] != '=' && f[i] != ',',
        forall|i: int| 0 <= i < t.len() ==> t[i] != ',',
    ensures
        replacements_spec(Some(f), Some(t), None) == replacements_spec(None, None, Some(f + "="@ + t)),
{
    reveal_strlit("=");
    let x = f + "="@ + t;
    assert(x == f + seq!['='] + t);
    assert forall|i: int| 0 <= i < x.len() implies x[i] != ',' by {
        if i < f.len() {
            assert(x[i] == f[i]);
        } else if i > f.len() {
            assert(x[i] == t[i - f.len() - 1]);
        }
    }
    lemma_split_without_sep(x, ',', Seq::empty());
    assert(Seq::<char>::empty() + x == x);
    let k = f.len() as int;
    assert(x.subrange(k, k + 1) == "="@);
    assert forall|j: int| 0 <= j < k implies !occurs_at(x, "="@, j) by {
        assert(x.subrange(j, j + 1)[0] == x[j]);
        assert(x[j] == f[j]);
    }
    lemma_first_at(x, "="@, k);
    assert(x.take(k) == f);
    assert(x.skip(k + 1) == t);
    let pieces = seq![x];
    assert(pieces.skip(1) == Seq::<Seq<char>>::empty());
    assert(pairs_from(pieces, Seq::empty()) == pairs_from(pieces.skip(1), upsert(Seq::empty(), f, escape_spec(t))));
}

} // verus!
