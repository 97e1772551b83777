use vstd::prelude::*;

use crate::text::{extend_chars, str_chars};
use crate::word::xml::{is_tag, lemma_raw_concat_append, lemma_raw_concat_take, raw_concat, tag_is, token_view, tokens_view, XmlKind, XmlToken};

verus! {

pub open spec fn is_end_p(t: XmlToken) -> bool {
    is_tag(t, XmlKind::End, "p"@)
}

/// The first start tag of a paragraph from position `k` on before which
/// exactly `target` paragraphs have ended (`count` have ended before `k`).
pub open spec fn p_start_at(ts: Seq<XmlToken>, target: nat, k: int, count: nat) -> Option<int>
    decreases ts.len() - k,
{
    if k < 0 || k >= ts.len() {
        None
    } else if is_tag(ts[k], XmlKind::Start, "p"@) && count == target {
        Some(k)
    } else {
        p_start_at(ts, target, k + 1, if is_end_p(ts[k]) { count + 1 } else { count })
    }
}

/// Where paragraph number `target` starts, counting ended paragraphs.
pub open spec fn paragraph_start(ts: Seq<XmlToken>, target: nat) -> Option<int> {
    p_start_at(ts, target, 0, 0)
}

/// The first paragraph end tag from position `k` on, or the end of the stream.
pub open spec fn next_end_p(ts: Seq<XmlToken>, k: int) -> int
    decreases ts.len() - k,
{
    if k < 0 || k >= ts.len() {
        ts.len() as int
    } else if is_end_p(ts[k]) {
        k
    } else {
        next_end_p(ts, k + 1)
    }
}

pub proof fn lemma_p_start_at_bounds(ts: Seq<XmlToken>, target: nat, k: int, count: nat)
    requires
        0 <= k,
    ensures
        p_start_at(ts, target, k, count) matches Some(i) ==> k <= i < ts.len() && is_tag(ts[i], XmlKind::Start, "p"@),
    decreases ts.len() - k,
{
    if k < ts.len() && !(is_tag(ts[k], XmlKind::Start, "p"@) && count == target) {
        lemma_p_start_at_bounds(ts, target, k + 1, if is_end_p(ts[k]) { count + 1 } else { count });
    }
}

pub proof fn lemma_next_end_p_bounds(ts: Seq<XmlToken>, k: int)
    requires
        0 <= k,
    ensures
        k <= next_end_p(ts, k) <= ts.len() || (k > ts.len() && next_end_p(ts, k) == ts.len()),
    decreases ts.len() - k,
{
    if k < ts.len() && !is_end_p(ts[k]) {
        lemma_next_end_p_bounds(ts, k + 1);
    }
}

/// The serialized tokens with `frag` written before position `k`.
pub open spec fn insert_at(ts: Seq<XmlToken>, k: int, frag: Seq<char>) -> Seq<char> {
    raw_concat(ts.take(k)) + frag + raw_concat(ts.skip(k))
}

fn concat_range(ts: &Vec<XmlToken>, lo: usize, hi: usize, out: &mut Vec<char>)
    requires
        lo <= hi <= ts.len(),
    ensures
        final(out)@ == old(out)@ + raw_concat(ts@.subrange(lo as int, hi as int)),
{
    let ghost o0 = out@;
    let mut i = lo;
    assert(ts@.subrange(lo as int, lo as int) == Seq::<XmlToken>::empty());
    while i < hi
        invariant
            lo <= i <= hi <= ts.len(),
            out@ == o0 + raw_concat(ts@.subrange(lo as int, i as int)),
        decreases hi - i,
    {
        extend_chars(out, str_chars(ts[i].raw.as_str()).as_slice());
        proof {
            lemma_raw_concat_take(ts@.subrange(lo as int, hi as int), i - lo);
            assert(ts@.subrange(lo as int, hi as int).take(i - lo) == ts@.subrange(lo as int, i as int));
            assert(ts@.subrange(lo as int, hi as int).take(i - lo + 1) == ts@.subrange(lo as int, i + 1));
        }
        i += 1;
    }
}

/// Finds where paragraph number `target` starts.
pub fn find_paragraph_start(ts: &Vec<XmlToken>, target: usize) -> (r: Option<usize>)
    ensures
        r matches Some(i) ==> paragraph_start(ts@, target as nat) == Some(i as int) && i < ts.len(),
        r is None ==> paragraph_start(ts@, target as nat) is None,
{
    let mut count: usize = 0;
    let mut k: usize = 0;
    proof {
        lemma_p_start_at_bounds(ts@, target as nat, 0, 0);
    }
    while k < ts.len()
        invariant
            k <= ts.len(),
            count <= k,
            paragraph_start(ts@, target as nat) == p_start_at(ts@, target as nat, k as int, count as nat),
        decreases ts.len() - k,
    {
        let t = &ts[k];
        if tag_is(t, XmlKind::Start, "p") && count == target {
            return Some(k);
        }
        if tag_is(t, XmlKind::End, "p") {
            count += 1;
        }
        k += 1;
    }
    None
}

/// The serialized tokens with `frag` written before paragraph number
/// `target`; `None` when the document has no such paragraph.
pub fn insert_before_paragraph(ts: &Vec<XmlToken>, target: usize, frag: &[char]) -> (r: Option<Vec<char>>)
    ensures
        r matches Some(v) ==> paragraph_start(ts@, target as nat) matches Some(k) && v@ == insert_at(ts@, k, frag@),
        r is None ==> paragraph_start(ts@, target as nat) is None,
{
    match find_paragraph_start(ts, target) {
        None => None,
        Some(k) => {
            let mut out: Vec<char> = Vec::new();
            concat_range(ts, 0, k, &mut out);
            extend_chars(&mut out, frag);
            concat_range(ts, k, ts.len(), &mut out);
            assert(ts@.subrange(0, k as int) == ts@.take(k as int));
            assert(ts@.subrange(k as int, ts.len() as int) == ts@.skip(k as int));
            Some(out)
        },
    }
}

/// The serialized tokens without paragraph number `target`: from its start
/// tag through the next paragraph end tag (or to the end).
pub open spec fn remove_paragraph_spec(ts: Seq<XmlToken>, k: int) -> Seq<char> {
    let j = next_end_p(ts, k);
    if j < ts.len() {
        raw_concat(ts.take(k)) + raw_concat(ts.skip(j + 1))
    } else {
        raw_concat(ts.take(k))
    }
}

pub fn remove_paragraph(ts: &Vec<XmlToken>, target: usize) -> (r: Option<Vec<char>>)
    ensures
        r matches Some(v) ==> paragraph_start(ts@, target as nat) matches Some(k) && v@ == remove_paragraph_spec(ts@, k),
        r is None ==> paragraph_start(ts@, target as nat) is None,
{
    match find_paragraph_start(ts, target) {
        None => None,
        Some(k) => {
            let mut j = k;
            proof {
                lemma_next_end_p_bounds(ts@, k as int);
            }
            while j < ts.len() && !tag_is(&ts[j], XmlKind::End, "p")
                invariant
                    k <= j <= ts.len(),
                    next_end_p(ts@, k as int) == next_end_p(ts@, j as int),
                decreases ts.len() - j,
            {
                j += 1;
            }
            let mut out: Vec<char> = Vec::new();
            concat_range(ts, 0, k, &mut out);
            assert(ts@.subrange(0, k as int) == ts@.take(k as int));
            if j < ts.len() {
                concat_range(ts, j + 1, ts.len(), &mut out);
                assert(ts@.subrange(j + 1, ts.len() as int) == ts@.skip(j + 1));
            }
            Some(out)
        },
    }
}


/// The tokens of one whole paragraph: a paragraph start tag first, its end
/// tag last, and no other paragraph end tag between.
pub open spec fn one_paragraph(p: Seq<XmlToken>) -> bool {
    &&& p.len() >= 2
    &&& is_tag(p[0], XmlKind::Start, "p"@)
    &&& is_end_p(p.last())
    &&& forall|j: int| 0 <= j < p.len() - 1 ==> !is_end_p(#[trigger] p[j])
}

proof fn lemma_start_kept(ts: Seq<XmlToken>, p: Seq<XmlToken>, target: nat, k: int, j: int, c: nat)
    requires
        0 <= j <= k <= ts.len(),
        p.len() > 0,
        is_tag(p[0], XmlKind::Start, "p"@),
        p_start_at(ts, target, j, c) == Some(k),
    ensures
        p_start_at(ts.take(k) + p + ts.skip(k), target, j, c) == Some(k),
    decreases k - j,
{
    let ts2 = ts.take(k) + p + ts.skip(k);
    assert(ts2[k] == p[0]);
    let c2: nat = if is_end_p(ts[j]) { c + 1 } else { c };
    lemma_p_start_at_bounds(ts, target, j + 1, c2);
    if j < k {
        assert(ts2[j] == ts[j]);
        assert(!(is_tag(ts[j], XmlKind::Start, "p"@) && c == target));
        assert(p_start_at(ts, target, j + 1, c2) == Some(k));
        lemma_start_kept(ts, p, target, k, j + 1, c2);
        assert(p_start_at(ts2, target, j, c) == p_start_at(ts2, target, j + 1, c2));
    } else {
        assert(is_tag(ts[j], XmlKind::Start, "p"@) && c == target);
    }
}

proof fn lemma_end_of_inserted(ts2: Seq<XmlToken>, p: Seq<XmlToken>, k: int, j: int)
    requires
        0 <= k <= j <= k + p.len() - 1,
        k + p.len() <= ts2.len(),
        one_paragraph(p),
        forall|m: int| 0 <= m < p.len() ==> ts2[k + m] == #[trigger] p[m],
    ensures
        next_end_p(ts2, j) == k + p.len() - 1,
    decreases k + p.len() - 1 - j,
{
    assert(ts2[j] == p[j - k]);
    if j < k + p.len() - 1 {
        lemma_end_of_inserted(ts2, p, k, j + 1);
    }
}

/// Deleting a paragraph undoes inserting it: when a whole paragraph `p` is
/// inserted before paragraph number `target` of a body, the inserted text
/// reads as the body's tokens with `p` in between, the new paragraph takes
/// number `target`, and removing that paragraph gives back the body as it
/// was.
pub proof fn law_delete_undoes_insert(ts: Seq<XmlToken>, target: nat, p: Seq<XmlToken>)
    requires
        paragraph_start(ts, target) is Some,
        one_paragraph(p),
    ensures
        ({
            let k = paragraph_start(ts, target).unwrap();
            let ts2 = ts.take(k) + p + ts.skip(k);
            &&& insert_at(ts, k, raw_concat(p)) == raw_concat(ts2)
            &&& paragraph_start(ts2, target) == Some(k)
            &&& remove_paragraph_spec(ts2, k) == raw_concat(ts)
        }),
{
    let k = paragraph_start(ts, target).unwrap();
    lemma_p_start_at_bounds(ts, target, 0, 0);
    let ts2 = ts.take(k) + p + ts.skip(k);
    crate::word::xml::lemma_raw_concat_append(ts.take(k), p);
    crate::word::xml::lemma_raw_concat_append(ts.take(k) + p, ts.skip(k));
    lemma_start_kept(ts, p, target, k, 0, 0);
    assert forall|m: int| 0 <= m < p.len() implies ts2[k + m] == #[trigger] p[m] by {}
    lemma_end_of_inserted(ts2, p, k, k);
    let j = k + p.len() - 1;
    assert(ts2.take(k) == ts.take(k));
    assert(ts2.skip(j + 1) == ts.skip(k));
    crate::word::xml::lemma_raw_concat_append(ts.take(k), ts.skip(k));
    assert(ts.take(k) + ts.skip(k) == ts);
}

proof fn lemma_view_same_token(a: Seq<XmlToken>, b: Seq<XmlToken>, i: int)
    requires
        tokens_view(a) == tokens_view(b),
        0 <= i < a.len(),
    ensures
        a.len() == b.len(),
        a[i].kind == b[i].kind && a[i].name@ == b[i].name@ && a[i].raw@ == b[i].raw@,
{
    assert(tokens_view(a).len() == a.len() && tokens_view(b).len() == b.len());
    assert(tokens_view(a)[i] == token_view(a[i]));
    assert(tokens_view(b)[i] == token_view(b[i]));
}

proof fn lemma_view_p_start(a: Seq<XmlToken>, b: Seq<XmlToken>, target: nat, k: int, c: nat)
    requires
        tokens_view(a) == tokens_view(b),
        0 <= k,
    ensures
        p_start_at(a, target, k, c) == p_start_at(b, target, k, c),
    decreases a.len() - k,
{
    assert(tokens_view(a).len() == a.len() && tokens_view(b).len() == b.len());
    if k < a.len() {
        lemma_view_same_token(a, b, k);
        lemma_view_p_start(a, b, target, k + 1, if is_end_p(a[k]) { c + 1 } else { c });
    }
}

proof fn lemma_view_next_end(a: Seq<XmlToken>, b: Seq<XmlToken>, k: int)
    requires
        tokens_view(a) == tokens_view(b),
        0 <= k,
    ensures
        next_end_p(a, k) == next_end_p(b, k),
    decreases a.len() - k,
{
    assert(tokens_view(a).len() == a.len() && tokens_view(b).len() == b.len());
    if k < a.len() {
        lemma_view_same_token(a, b, k);
        lemma_view_next_end(a, b, k + 1);
    }
}

proof fn lemma_view_raw_concat(a: Seq<XmlToken>, b: Seq<XmlToken>)
    requires
        tokens_view(a) == tokens_view(b),
    ensures
        raw_concat(a) == raw_concat(b),
    decreases a.len(),
{
    assert(tokens_view(a).len() == a.len() && tokens_view(b).len() == b.len());
    if a.len() > 0 {
        lemma_view_same_token(a, b, a.len() - 1);
        assert(tokens_view(a.drop_last()) == tokens_view(a).drop_last());
        assert(tokens_view(b.drop_last()) == tokens_view(b).drop_last());
        lemma_view_raw_concat(a.drop_last(), b.drop_last());
    }
}

/// What removing a paragraph writes depends on the tokens' values alone.
pub proof fn lemma_remove_by_view(a: Seq<XmlToken>, b: Seq<XmlToken>, target: nat)
    requires
        tokens_view(a) == tokens_view(b),
    ensures
        paragraph_start(a, target) == paragraph_start(b, target),
        paragraph_start(a, target) matches Some(k) ==> remove_paragraph_spec(a, k) == remove_paragraph_spec(b, k),
{
    assert(tokens_view(a).len() == a.len() && tokens_view(b).len() == b.len());
    lemma_view_p_start(a, b, target, 0, 0);
    if let Some(k) = paragraph_start(a, target) {
        lemma_p_start_at_bounds(a, target, 0, 0);
        lemma_view_next_end(a, b, k);
        assert(tokens_view(a.take(k)) == tokens_view(a).take(k));
        assert(tokens_view(b.take(k)) == tokens_view(b).take(k));
        lemma_view_raw_concat(a.take(k), b.take(k));
        let j = next_end_p(a, k);
        lemma_next_end_p_bounds(a, k);
        if j < a.len() {
            assert(tokens_view(a.skip(j + 1)) == tokens_view(a).skip(j + 1));
            assert(tokens_view(b.skip(j + 1)) == tokens_view(b).skip(j + 1));
            lemma_view_raw_concat(a.skip(j + 1), b.skip(j + 1));
        }
    }
}

/// A paragraph style property.
pub open spec fn pstyle_xml(sid: Seq<char>) -> Seq<char> {
    "<w:pStyle w:val=\""@ + sid + "\"/>"@
}

/// The body with paragraph number `target` given style `sid`: a style
/// property written after the start of its properties (an old `pStyle`
/// tag dropped), or properties with that style written before its first
/// child tag when it has none.
pub open spec fn style_fold(ts: Seq<XmlToken>, k: int, idx: nat, target: nat, in_t: bool, has_ppr: bool, written: bool, sid: Seq<char>) -> Seq<char>
    decreases ts.len() - k,
{
    if k < 0 || k >= ts.len() {
        Seq::empty()
    } else {
        let t = ts[k];
        if is_tag(t, XmlKind::Start, "p"@) {
            if idx == target {
                t.raw@ + style_fold(ts, k + 1, idx, target, true, false, false, sid)
            } else {
                t.raw@ + style_fold(ts, k + 1, idx, target, in_t, has_ppr, written, sid)
            }
        } else if is_tag(t, XmlKind::Start, "pPr"@) && in_t {
            t.raw@ + pstyle_xml(sid) + style_fold(ts, k + 1, idx, target, in_t, true, true, sid)
        } else if is_tag(t, XmlKind::Empty, "pStyle"@) && in_t {
            style_fold(ts, k + 1, idx, target, in_t, has_ppr, written, sid)
        } else if t.kind == XmlKind::Start && in_t && !has_ppr && !written && t.name@ != "pPr"@ {
            "<w:pPr>"@ + pstyle_xml(sid) + "</w:pPr>"@ + t.raw@ + style_fold(ts, k + 1, idx, target, in_t, has_ppr, true, sid)
        } else if is_end_p(t) {
            t.raw@ + style_fold(ts, k + 1, idx + 1, target, false, has_ppr, written, sid)
        } else {
            t.raw@ + style_fold(ts, k + 1, idx, target, in_t, has_ppr, written, sid)
        }
    }
}

pub open spec fn restyle_spec(ts: Seq<XmlToken>, target: nat, sid: Seq<char>) -> Seq<char> {
    style_fold(ts, 0, 0, target, false, false, false, sid)
}

/// Rewrites the body so that paragraph number `target` has style `sid`.
pub fn restyle_paragraph(ts: &Vec<XmlToken>, target: usize, sid: &str) -> (r: Vec<char>)
    ensures
        r@ == restyle_spec(ts@, target as nat, sid@),
{
    let mut pstyle: Vec<char> = Vec::new();
    extend_chars(&mut pstyle, str_chars("<w:pStyle w:val=\"").as_slice());
    extend_chars(&mut pstyle, str_chars(sid).as_slice());
    extend_chars(&mut pstyle, str_chars("\"/>").as_slice());
    let mut out: Vec<char> = Vec::new();
    let mut idx: usize = 0;
    let mut in_t = false;
    let mut has_ppr = false;
    let mut written = false;
    let mut k: usize = 0;
    while k < ts.len()
        invariant
            k <= ts.len(),
            idx <= k,
            pstyle@ == pstyle_xml(sid@),
            restyle_spec(ts@, target as nat, sid@) == out@ + style_fold(ts@, k as int, idx as nat, target as nat, in_t, has_ppr, written, sid@),
        decreases ts.len() - k,
    {
        let t = &ts[k];
        let raw = str_chars(t.raw.as_str());
        if tag_is(t, XmlKind::Start, "p") {
            if idx == target {
                in_t = true;
                has_ppr = false;
                written = false;
            }
            extend_chars(&mut out, raw.as_slice());
        } else if tag_is(t, XmlKind::Start, "pPr") && in_t {
            has_ppr = true;
            extend_chars(&mut out, raw.as_slice());
            extend_chars(&mut out, pstyle.as_slice());
            written = true;
        } else if tag_is(t, XmlKind::Empty, "pStyle") && in_t {
        } else if t.kind == XmlKind::Start && in_t && !has_ppr && !written && !tag_is(t, XmlKind::Start, "pPr") {
            extend_chars(&mut out, str_chars("<w:pPr>").as_slice());
            extend_chars(&mut out, pstyle.as_slice());
            extend_chars(&mut out, str_chars("</w:pPr>").as_slice());
            written = true;
            extend_chars(&mut out, raw.as_slice());
        } else if tag_is(t, XmlKind::End, "p") {
            in_t = false;
            extend_chars(&mut out, raw.as_slice());
            idx += 1;
        } else {
            extend_chars(&mut out, raw.as_slice());
        }
        k += 1;
    }
    out
}

/// Position of the last start tag of section properties among the first
/// `n` tokens; -1 when there is none.
pub open spec fn last_sect_start(ts: Seq<XmlToken>, n: int) -> int
    decreases n,
{
    if n <= 0 || n > ts.len() {
        -1
    } else if is_tag(ts[n - 1], XmlKind::Start, "sectPr"@) {
        n - 1
    } else {
        last_sect_start(ts, n - 1)
    }
}

/// The body with the page size of one section replaced, the section whose
/// properties start at token `last`: old `pgSz` tags inside those
/// properties dropped and `pgsz` written before their end; every other
/// token as it was.
pub open spec fn sect_fold(ts: Seq<XmlToken>, k: int, in_s: bool, last: int, pgsz: Seq<char>) -> Seq<char>
    decreases ts.len() - k,
{
    if k < 0 || k >= ts.len() {
        Seq::empty()
    } else {
        let t = ts[k];
        if is_tag(t, XmlKind::Start, "sectPr"@) {
            t.raw@ + sect_fold(ts, k + 1, k == last, last, pgsz)
        } else if (is_tag(t, XmlKind::Start, "pgSz"@) || is_tag(t, XmlKind::Empty, "pgSz"@) || is_tag(t, XmlKind::End, "pgSz"@)) && in_s {
            sect_fold(ts, k + 1, in_s, last, pgsz)
        } else if is_tag(t, XmlKind::End, "sectPr"@) && in_s {
            pgsz + t.raw@ + sect_fold(ts, k + 1, false, last, pgsz)
        } else {
            t.raw@ + sect_fold(ts, k + 1, in_s, last, pgsz)
        }
    }
}

/// The body with the page size of its last section replaced (see
/// `sect_fold`).
pub open spec fn last_section_resized(ts: Seq<XmlToken>, pgsz: Seq<char>) -> Seq<char> {
    sect_fold(ts, 0, false, last_sect_start(ts, ts.len() as int), pgsz)
}

pub fn replace_page_size(ts: &Vec<XmlToken>, pgsz: &[char]) -> (r: Vec<char>)
    ensures
        r@ == last_section_resized(ts@, pgsz@),
{
    let mut n: usize = ts.len();
    while n > 0 && !tag_is(&ts[n - 1], XmlKind::Start, "sectPr")
        invariant
            n <= ts.len(),
            last_sect_start(ts@, ts@.len() as int) == last_sect_start(ts@, n as int),
        decreases n,
    {
        n -= 1;
    }
    let ghost last = last_sect_start(ts@, ts@.len() as int);
    let has_last = n > 0;
    let last_idx: usize = if n > 0 { n - 1 } else { 0 };
    assert(has_last ==> last == last_idx);
    assert(!has_last ==> last == -1);
    let mut out: Vec<char> = Vec::new();
    let mut in_s = false;
    let mut k: usize = 0;
    while k < ts.len()
        invariant
            k <= ts.len(),
            has_last ==> last == last_idx,
            !has_last ==> last == -1,
            last_section_resized(ts@, pgsz@) == out@ + sect_fold(ts@, k as int, in_s, last, pgsz@),
        decreases ts.len() - k,
    {
        let t = &ts[k];
        let raw = str_chars(t.raw.as_str());
        if tag_is(t, XmlKind::Start, "sectPr") {
            in_s = has_last && k == last_idx;
            extend_chars(&mut out, raw.as_slice());
        } else if (tag_is(t, XmlKind::Start, "pgSz") || tag_is(t, XmlKind::Empty, "pgSz") || tag_is(t, XmlKind::End, "pgSz")) && in_s {
        } else if tag_is(t, XmlKind::End, "sectPr") && in_s {
            extend_chars(&mut out, pgsz);
            in_s = false;
            extend_chars(&mut out, raw.as_slice());
        } else {
            extend_chars(&mut out, raw.as_slice());
        }
        k += 1;
    }
    out
}

} // verus!
