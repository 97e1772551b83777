use vstd::prelude::*;

use crate::pdf::error::PdfCliError;
use crate::pdf::outline::OutlineNode;
use crate::pdf::pages::page_span;
use crate::text::{contains_chars, occurs_at, str_chars, string_from_chars, trim, trim_chars};
use crate::unicode::{alphanumeric, is_alphanumeric, lowercase, to_lowercase};

verus! {

/// Every bookmark in document order (each before its children), as its
/// title and target page.
pub open spec fn nodes_flat(nodes: Seq<OutlineNode>) -> Seq<(Seq<char>, Option<usize>)>
    decreases nodes,
{
    if nodes.len() == 0 {
        Seq::empty()
    } else {
        seq![(nodes[0].title@, nodes[0].target_page)] + nodes_flat(nodes[0].children@) + nodes_flat(
            nodes.skip(1),
        )
    }
}

pub proof fn lemma_nodes_flat_append(a: Seq<OutlineNode>, b: Seq<OutlineNode>)
    ensures
        nodes_flat(a + b) == nodes_flat(a) + nodes_flat(b),
    decreases a.len(),
{
    if a.len() == 0 {
        assert(a + b == b);
    } else {
        assert((a + b)[0] == a[0]);
        assert((a + b).skip(1) == a.skip(1) + b);
        lemma_nodes_flat_append(a.skip(1), b);
    }
}

/// Every bookmark of an outline, at any depth, is in its flattened list:
/// top-level bookmark `i` has an entry (its title and page) at the returned
/// position, and the bookmarks under it follow right after that entry, in
/// their own flattened order.
pub proof fn law_nested_bookmarks_listed(nodes: Seq<OutlineNode>, i: int) -> (k: int)
    requires
        0 <= i < nodes.len(),
    ensures
        0 <= k,
        k + 1 + nodes_flat(nodes[i].children@).len() <= nodes_flat(nodes).len(),
        nodes_flat(nodes)[k] == (nodes[i].title@, nodes[i].target_page),
        nodes_flat(nodes).subrange(k + 1, k + 1 + nodes_flat(nodes[i].children@).len())
            == nodes_flat(nodes[i].children@),
    decreases nodes.len(),
{
    let f = nodes_flat(nodes);
    let c0 = nodes_flat(nodes[0].children@);
    let rest = nodes_flat(nodes.skip(1));
    assert(f == seq![(nodes[0].title@, nodes[0].target_page)] + c0 + rest);
    if i == 0 {
        assert(f.subrange(1, 1 + c0.len() as int) =~= c0);
        0
    } else {
        let k1 = law_nested_bookmarks_listed(nodes.skip(1), i - 1);
        assert(nodes.skip(1)[i - 1] == nodes[i]);
        let k = 1 + c0.len() + k1;
        let cn = nodes_flat(nodes[i].children@);
        assert(f[k] == rest[k1]);
        assert(f.subrange(k + 1, k + 1 + cn.len()) =~= rest.subrange(k1 + 1, k1 + 1 + cn.len()));
        k
    }
}

proof fn lemma_some_title_found(flat: Seq<(Seq<char>, Option<usize>)>, query: Seq<char>, k: int, m: int)
    requires
        0 <= k <= m < flat.len(),
        title_matches(flat[m].0, query),
    ensures
        first_title_match(flat, query, k) is Some,
    decreases m - k,
{
    if !title_matches(flat[k].0, query) {
        lemma_some_title_found(flat, query, k + 1, m);
    }
}

/// A heading query that answers a bookmark one level down in the outline
/// (bookmark `j` under top-level bookmark `i`) finds a section: the search
/// reaches nested bookmarks too.
pub proof fn law_nested_heading_found(nodes: Seq<OutlineNode>, i: int, j: int, query: Seq<char>, total: nat)
    requires
        0 <= i < nodes.len(),
        0 <= j < nodes[i].children@.len(),
        title_matches(nodes[i].children@[j].title@, query),
    ensures
        heading_pages_spec(nodes, query, total) is Some,
{
    let k = law_nested_bookmarks_listed(nodes, i);
    let kids = nodes[i].children@;
    let k2 = law_nested_bookmarks_listed(kids, j);
    let f = nodes_flat(nodes);
    let fc = nodes_flat(kids);
    assert(f.subrange(k + 1, k + 1 + fc.len())[k2] == fc[k2]);
    assert(f[k + 1 + k2] == (kids[j].title@, kids[j].target_page));
    lemma_some_title_found(f, query, 0, k + 1 + k2);
}

pub open spec fn flat_view(v: Seq<(String, Option<usize>)>) -> Seq<(Seq<char>, Option<usize>)> {
    v.map_values(|e: (String, Option<usize>)| (e.0@, e.1))
}

/// Appends every bookmark of `nodes`, in document order, to `acc`.
pub fn flatten_nodes(nodes: &Vec<OutlineNode>, acc: &mut Vec<(String, Option<usize>)>)
    ensures
        flat_view(final(acc)@) == flat_view(old(acc)@) + nodes_flat(nodes@),
    decreases nodes@,
{
    let ghost a0 = flat_view(acc@);
    let mut i: usize = 0;
    while i < nodes.len()
        invariant
            i <= nodes.len(),
            flat_view(acc@) == a0 + nodes_flat(nodes@.take(i as int)),
        decreases nodes.len() - i,
    {
        let node = &nodes[i];
        let ghost before = flat_view(acc@);
        acc.push((node.title.clone(), node.target_page));
        assert(flat_view(acc@) == before.push((node.title@, node.target_page)));
        proof {
            assert(decreases_to!(nodes@ => nodes@[i as int]));
        }
        flatten_nodes(&node.children, acc);
        proof {
            let t = nodes@.take(i as int);
            let single = seq![nodes@[i as int]];
            assert(t + single == nodes@.take(i + 1));
            lemma_nodes_flat_append(t, single);
            assert(single.skip(1) == Seq::<OutlineNode>::empty());
            assert(nodes_flat(single) == seq![(node.title@, node.target_page)] + nodes_flat(node.children@) + nodes_flat(single.skip(1)));
        }
        i += 1;
    }
    assert(nodes@.take(nodes.len() as int) == nodes@);
}

/// Characters kept when matching titles: letters, digits and CJK ideographs.
pub open spec fn match_char(c: char) -> bool {
    alphanumeric(c) || ('\u{4e00}' <= c && c <= '\u{9fa5}')
}

/// The letters, digits and CJK ideographs of `s`, lowercased.
pub open spec fn normalize_spec(s: Seq<char>) -> Seq<char> {
    lowercase(s.filter(|c: char| match_char(c)))
}

pub fn normalize_for_match(s: &str) -> (r: Vec<char>)
    ensures
        r@ == normalize_spec(s@),
{
    let v = str_chars(s);
    let mut kept: Vec<char> = Vec::new();
    let mut i: usize = 0;
    while i < v.len()
        invariant
            i <= v.len(),
            v@ == s@,
            kept@ == v@.take(i as int).filter(|c: char| match_char(c)),
        decreases v.len() - i,
    {
        let c = v[i];
        let keep = is_alphanumeric(c) || ('\u{4e00}' <= c && c <= '\u{9fa5}');
        if keep {
            kept.push(c);
        }
        proof {
            reveal_with_fuel(Seq::<_>::filter, 1);
            assert(v@.take(i + 1).drop_last() == v@.take(i as int));
            assert(v@.take(i + 1).last() == c);
        }
        i += 1;
    }
    assert(v@.take(v.len() as int) == v@);
    let ks = string_from_chars(kept.as_slice());
    let low = to_lowercase(ks.as_str());
    str_chars(low.as_str())
}


/// `p` occurs somewhere in `s` (`str::contains`).
pub open spec fn has_sub(s: Seq<char>, p: Seq<char>) -> bool {
    exists|i: int| occurs_at(s, p, i)
}

/// A bookmark title answers a heading query: their normalized forms contain
/// one another (for a query that keeps some characters), or their
/// lowercased forms do.
pub open spec fn title_matches(title: Seq<char>, query: Seq<char>) -> bool {
    let nq = normalize_spec(query);
    let nt = normalize_spec(title);
    let rl = lowercase(title);
    let ql = lowercase(trim(query));
    (nq.len() > 0 && (has_sub(nt, nq) || has_sub(nq, nt))) || has_sub(rl, ql) || has_sub(ql, rl)
}

/// The first bookmark from `k` on whose title answers the query.
pub open spec fn first_title_match(flat: Seq<(Seq<char>, Option<usize>)>, query: Seq<char>, k: int) -> Option<int>
    decreases flat.len() - k,
{
    if k < 0 || k >= flat.len() {
        None
    } else if title_matches(flat[k].0, query) {
        Some(k)
    } else {
        first_title_match(flat, query, k + 1)
    }
}

/// The page before the first bookmark from `k` on that points after `start`,
/// or `total` when there is none.
pub open spec fn section_last_page(flat: Seq<(Seq<char>, Option<usize>)>, start: nat, k: int, total: nat) -> nat
    decreases flat.len() - k,
{
    if k < 0 || k >= flat.len() {
        total
    } else {
        match flat[k].1 {
            Some(p) => if p > start {
                (p - 1) as nat
            } else {
                section_last_page(flat, start, k + 1, total)
            },
            None => section_last_page(flat, start, k + 1, total),
        }
    }
}

/// The pages of the section whose bookmark answers the query: from its
/// page (1 when it has none) up to the page before the next bookmark that
/// points further, within the document but never before its first page.
/// `None` when there are no bookmarks or none answers.
pub open spec fn heading_pages_spec(nodes: Seq<OutlineNode>, query: Seq<char>, total: nat) -> Option<Seq<usize>> {
    let flat = nodes_flat(nodes);
    if nodes.len() == 0 {
        None
    } else {
        match first_title_match(flat, query, 0) {
            Some(i) => {
                let start: nat = match flat[i].1 {
                    Some(p) => p as nat,
                    None => 1,
                };
                let end = section_last_page(flat, start, i + 1, total);
                let bounded: nat = if end <= total {
                    if end >= start { end } else { start }
                } else {
                    if total >= start { total } else { start }
                };
                Some(page_span(start, bounded))
            },
            None => None,
        }
    }
}

fn title_matches_exec(title: &String, query: &str, nq: &Vec<char>, ql: &Vec<char>) -> (b: bool)
    requires
        nq@ == normalize_spec(query@),
        ql@ == lowercase(trim(query@)),
    ensures
        b == title_matches(title@, query@),
{
    let nt = normalize_for_match(title.as_str());
    if nq.len() > 0 && (contains_chars(nt.as_slice(), nq.as_slice()) || contains_chars(nq.as_slice(), nt.as_slice())) {
        return true;
    }
    let rl = str_chars(to_lowercase(title.as_str()).as_str());
    contains_chars(rl.as_slice(), ql.as_slice()) || contains_chars(ql.as_slice(), rl.as_slice())
}

fn find_title(flat: &Vec<(String, Option<usize>)>, query: &str, nq: &Vec<char>, ql: &Vec<char>) -> (r: usize)
    requires
        nq@ == normalize_spec(query@),
        ql@ == lowercase(trim(query@)),
    ensures
        r <= flat.len(),
        r < flat.len() ==> first_title_match(flat_view(flat@), query@, 0) == Some(r as int),
        r == flat.len() ==> first_title_match(flat_view(flat@), query@, 0) is None,
{
    let ghost fv = flat_view(flat@);
    let mut idx: usize = 0;
    while idx < flat.len()
        invariant
            idx <= flat.len(),
            fv == flat_view(flat@),
            nq@ == normalize_spec(query@),
            ql@ == lowercase(trim(query@)),
            first_title_match(fv, query@, 0) == first_title_match(fv, query@, idx as int),
        decreases flat.len() - idx,
    {
        if title_matches_exec(&flat[idx].0, query, nq, ql) {
            return idx;
        }
        idx += 1;
    }
    idx
}

fn find_section_end(flat: &Vec<(String, Option<usize>)>, start: usize, from: usize, total: usize) -> (r: usize)
    requires
        from <= flat.len(),
    ensures
        r as nat == section_last_page(flat_view(flat@), start as nat, from as int, total as nat),
{
    let ghost fv = flat_view(flat@);
    let mut j = from;
    while j < flat.len()
        invariant
            from <= j <= flat.len(),
            fv == flat_view(flat@),
            section_last_page(fv, start as nat, from as int, total as nat) == section_last_page(fv, start as nat, j as int, total as nat),
        decreases flat.len() - j,
    {
        match flat[j].1 {
            Some(p) => {
                if p > start {
                    return p - 1;
                }
            },
            None => {},
        }
        j += 1;
    }
    total
}

/// The pages of the outline section whose title answers `heading_query`.
pub fn resolve_pages_by_heading(outlines: &Vec<OutlineNode>, heading_query: &str, total_pages: usize) -> (r: Result<Vec<usize>, PdfCliError>)
    ensures
        r matches Ok(v) ==> heading_pages_spec(outlines@, heading_query@, total_pages as nat) == Some(v@),
        r matches Err(e) ==> heading_pages_spec(outlines@, heading_query@, total_pages as nat) is None && e is NotFound,
{
    if outlines.len() == 0 {
        return Err(PdfCliError::NotFound("该文档未包含书签大纲(Outlines)，无法按章节标题定向抽取".to_owned()));
    }
    let mut flat: Vec<(String, Option<usize>)> = Vec::new();
    flatten_nodes(outlines, &mut flat);
    let ghost fv = flat_view(flat@);
    assert(fv == nodes_flat(outlines@));
    let nq = normalize_for_match(heading_query);
    let tq = string_from_chars(trim_chars(str_chars(heading_query).as_slice()).as_slice());
    let ql = str_chars(to_lowercase(tq.as_str()).as_str());
    let idx = find_title(&flat, heading_query, &nq, &ql);
    if idx == flat.len() {
        let mut msg = String::new();
        crate::text::push_str(&mut msg, "未在文档大纲中检索到标题: '");
        crate::text::push_str(&mut msg, heading_query);
        crate::text::push_str(&mut msg, "'");
        return Err(PdfCliError::NotFound(msg));
    }
    assert(first_title_match(fv, heading_query@, 0) == Some(idx as int));
    assert(fv[idx as int].1 == flat@[idx as int].1);
    let start: usize = match flat[idx].1 {
        Some(p) => p,
        None => 1,
    };
    let end = find_section_end(&flat, start, idx + 1, total_pages);
    assert(end as nat == section_last_page(fv, start as nat, idx + 1, total_pages as nat));
    let capped = if end < total_pages { end } else { total_pages };
    let bounded = if capped > start { capped } else { start };
    assert(heading_pages_spec(outlines@, heading_query@, total_pages as nat) == Some(page_span(start as nat, bounded as nat)));
    let mut out: Vec<usize> = Vec::new();
    let mut p = start;
    loop
        invariant
            heading_pages_spec(outlines@, heading_query@, total_pages as nat) == Some(page_span(start as nat, bounded as nat)),
            start <= p <= bounded,
            out@ == Seq::new((p - start) as nat, |i: int| (start + i) as usize),
        decreases bounded - p,
    {
        out.push(p);
        if p == bounded {
            assert(out@ =~= page_span(start as nat, bounded as nat));
            return Ok(out);
        }
        p += 1;
    }
}


pub open spec fn is_ascii_alnum(c: char) -> bool {
    ('0' <= c && c <= '9') || ('a' <= c && c <= 'z') || ('A' <= c && c <= 'Z')
}

pub open spec fn needs_space_spec(last: Seq<char>, next: Seq<char>) -> bool {
    last.len() > 0 && next.len() > 0 && is_ascii_alnum(last.last()) && is_ascii_alnum(next[0])
}

/// Two text fragments laid side by side need a space between them when
/// both touch with an ASCII letter or digit.
pub fn needs_space(last_str: &[char], next_str: &[char]) -> (b: bool)
    ensures
        b == needs_space_spec(last_str@, next_str@),
{
    if last_str.len() == 0 || next_str.len() == 0 {
        return false;
    }
    let a = last_str[last_str.len() - 1];
    let c = next_str[0];
    (('0' <= a && a <= '9') || ('a' <= a && a <= 'z') || ('A' <= a && a <= 'Z')) && (('0' <= c
        && c <= '9') || ('a' <= c && c <= 'z') || ('A' <= c && c <= 'Z'))
}

pub open spec fn digits_and_dots(s: Seq<char>) -> bool {
    forall|i: int| 0 <= i < s.len() ==> (('0' <= #[trigger] s[i] && s[i] <= '9') || s[i] == '.')
}

/// A trimmed line looks like a heading: at most 60 bytes, and either a
/// `第…章/节/篇` heading or a dotted section number such as `2.1`.
pub open spec fn likely_heading_spec(s: Seq<char>) -> bool {
    if vstd::utf8::encode_utf8(s).len() as usize > 60 {
        false
    } else if s.len() > 0 && s[0] == '第' && (s.contains('章') || s.contains('节') || s.contains('篇')) {
        true
    } else if s.len() > 0 && '0' <= s[0] && s[0] <= '9' && s.contains('.') {
        let ws = crate::text::words(s);
        let prefix = if ws.len() > 0 {
            ws[0]
        } else {
            Seq::empty()
        };
        digits_and_dots(prefix)
    } else {
        false
    }
}

fn contains_char(s: &[char], c: char) -> (b: bool)
    ensures
        b == s@.contains(c),
{
    let mut i: usize = 0;
    while i < s.len()
        invariant
            i <= s.len(),
            forall|j: int| 0 <= j < i ==> s@[j] != c,
        decreases s.len() - i,
    {
        if s[i] == c {
            assert(s@[i as int] == c);
            return true;
        }
        i += 1;
    }
    false
}

fn all_digits_dots(prefix: &[char]) -> (b: bool)
    ensures
        b == digits_and_dots(prefix@),
{
    let mut i: usize = 0;
    while i < prefix.len()
        invariant
            i <= prefix.len(),
            forall|j: int| 0 <= j < i ==> (('0' <= #[trigger] prefix@[j] && prefix@[j] <= '9') || prefix@[j] == '.'),
        decreases prefix.len() - i,
    {
        let c = prefix[i];
        if !(('0' <= c && c <= '9') || c == '.') {
            return false;
        }
        i += 1;
    }
    true
}

pub fn is_likely_heading(s: &[char]) -> (b: bool)
    ensures
        b == likely_heading_spec(s@),
{
    if crate::text::utf8_len(s) > 60 {
        return false;
    }
    if s.len() > 0 && s[0] == '第' && (contains_char(s, '章') || contains_char(s, '节') || contains_char(s, '篇')) {
        return true;
    }
    if s.len() > 0 && '0' <= s[0] && s[0] <= '9' && contains_char(s, '.') {
        let ws = crate::text::split_words(s);
        let prefix: Vec<char> = if ws.len() > 0 {
            let mut p: Vec<char> = Vec::new();
            crate::text::extend_chars(&mut p, ws[0].as_slice());
            p
        } else {
            Vec::new()
        };
        return all_digits_dots(prefix.as_slice());
    }
    false
}

/// The Markdown form of one line of extracted text.
pub open spec fn markdown_line(line: Seq<char>) -> Seq<char> {
    let t = trim(line);
    if t.len() == 0 {
        Seq::empty()
    } else if likely_heading_spec(t) {
        "\n### "@ + t + "\n"@
    } else {
        t
    }
}

/// Marks lines that look like headings as level-3 Markdown headings.
pub open spec fn markdown_spec(raw: Seq<char>) -> Seq<char> {
    crate::text::join_spec(crate::text::lines_of(raw).map_values(|l: Seq<char>| markdown_line(l)), "\n"@)
}

pub fn format_as_markdown(raw_text: &str) -> (r: String)
    ensures
        r@ == markdown_spec(raw_text@),
{
    let v = str_chars(raw_text);
    let ls = crate::text::lines(v.as_slice());
    let ghost lv = ls@.map_values(|x: Vec<char>| x@);
    let ghost md = lv.map_values(|l: Seq<char>| markdown_line(l));
    let mut out: Vec<char> = Vec::new();
    let mut i: usize = 0;
    while i < ls.len()
        invariant
            i <= ls.len(),
            lv == ls@.map_values(|x: Vec<char>| x@),
            md == lv.map_values(|l: Seq<char>| markdown_line(l)),
            out@ == crate::text::join_spec(md.take(i as int), "\n"@),
        decreases ls.len() - i,
    {
        let t = trim_chars(ls[i].as_slice());
        let mut piece: Vec<char> = Vec::new();
        if t.len() == 0 {
        } else if is_likely_heading(t.as_slice()) {
            crate::text::extend_chars(&mut piece, str_chars("\n### ").as_slice());
            crate::text::extend_chars(&mut piece, t.as_slice());
            piece.push('\n');
            proof {
                reveal_strlit("\n");
            }
        } else {
            crate::text::extend_chars(&mut piece, t.as_slice());
        }
        assert(lv[i as int] == ls@[i as int]@);
        assert(piece@ == md[i as int]);
        if i > 0 {
            out.push('\n');
            proof {
                reveal_strlit("\n");
            }
        }
        crate::text::extend_chars(&mut out, piece.as_slice());
        assert(md.take(i + 1).drop_last() == md.take(i as int));
        i += 1;
    }
    assert(md.take(ls.len() as int) == md);
    string_from_chars(out.as_slice())
}

} // verus!
