use vstd::prelude::*;

use crate::pdf::outline::OutlineNode;
use crate::text::{
    eq_ignore_ascii_case, eq_ignore_ascii_case_chars, extend_chars, is_white, lead_ws, str_chars,
    string_from_chars, trail_ws, trim, trim_chars,
};

verus! {

/// One piece of text prepared for retrieval: where it comes from and how long it is.
pub struct ChunkItem {
    pub chunk_id: usize,
    pub heading_path: String,
    pub page_range: [usize; 2],
    pub text: String,
    pub char_count: usize,
    pub token_estimate: usize,
}

pub struct ChunkResponse {
    pub status: String,
    pub file: String,
    pub strategy: String,
    pub total_chunks: usize,
    pub chunks: Vec<ChunkItem>,
}

/// A bookmark flattened into its path of titles and its first page.
pub struct FlatSection {
    pub path: String,
    pub start_page: usize,
    pub end_page: usize,
}

/// `prefix / title`, or the title alone at the top level.
pub open spec fn child_path(prefix: Seq<char>, title: Seq<char>) -> Seq<char> {
    if prefix.len() == 0 {
        title
    } else {
        prefix + " / "@ + title
    }
}

/// Bookmarks in document order (each before its children) that point to a
/// page, with their title paths.
pub open spec fn flatten_spec(nodes: Seq<OutlineNode>, prefix: Seq<char>) -> Seq<(Seq<char>, usize)>
    decreases nodes,
{
    if nodes.len() == 0 {
        Seq::empty()
    } else {
        let n = nodes[0];
        let path = child_path(prefix, n.title@);
        let own: Seq<(Seq<char>, usize)> = match n.target_page {
            Some(p) => seq![(path, p)],
            None => Seq::empty(),
        };
        own + flatten_spec(n.children@, path) + flatten_spec(nodes.skip(1), prefix)
    }
}

/// Tokens estimated from a character count: `round(0.75 * n)`.
pub open spec fn tokens_for(n: nat) -> nat {
    (3 * n + 2) / 4
}

/// Estimated number of tokens for `char_count` characters (three quarters,
/// rounded half up).
pub fn estimate_tokens(char_count: usize) -> (t: usize)
    ensures
        t as nat == tokens_for(char_count as nat),
{
    (char_count / 4) * 3 + ((char_count % 4) * 3 + 2) / 4
}


pub open spec fn sections_view(v: Seq<FlatSection>) -> Seq<(Seq<char>, usize)> {
    v.map_values(|f: FlatSection| (f.path@, f.start_page))
}

/// Appends the bookmarks of `nodes` that point to a page to `acc`, with
/// their paths below `prefix` and an end page equal to their start page.
pub fn flatten_outlines(nodes: &Vec<OutlineNode>, prefix: &Vec<char>, acc: &mut Vec<FlatSection>)
    ensures
        sections_view(final(acc)@) == sections_view(old(acc)@) + flatten_spec(nodes@, prefix@),
        final(acc)@.len() >= old(acc)@.len(),
        forall|i: int| 0 <= i < old(acc)@.len() ==> final(acc)@[i] == old(acc)@[i],
        forall|i: int|
            old(acc)@.len() <= i < final(acc)@.len() ==> (#[trigger] final(acc)@[i]).end_page
                == final(acc)@[i].start_page,
    decreases nodes@,
{
    let ghost a0 = acc@;
    let mut i: usize = 0;
    assert(nodes@.skip(0) == nodes@);
    while i < nodes.len()
        invariant
            i <= nodes.len(),
            flatten_spec(nodes@, prefix@) == flatten_spec(nodes@.take(i as int), prefix@)
                + flatten_spec(nodes@.skip(i as int), prefix@),
            sections_view(acc@) == sections_view(a0) + flatten_spec(nodes@.take(i as int), prefix@),
            a0.len() <= acc@.len(),
            forall|k: int| 0 <= k < a0.len() ==> acc@[k] == a0[k],
            forall|k: int| a0.len() <= k < acc@.len() ==> (#[trigger] acc@[k]).end_page == acc@[k].start_page,
        decreases nodes.len() - i,
    {
        let node = &nodes[i];
        let mut path: Vec<char> = Vec::new();
        if prefix.len() == 0 {
            crate::text::extend_chars(&mut path, str_chars(node.title.as_str()).as_slice());
        } else {
            crate::text::extend_chars(&mut path, prefix.as_slice());
            crate::text::extend_chars(&mut path, str_chars(" / ").as_slice());
            crate::text::extend_chars(&mut path, str_chars(node.title.as_str()).as_slice());
        }
        assert(path@ == child_path(prefix@, node.title@));
        let ghost before = sections_view(acc@);
        match node.target_page {
            Some(target) => {
                acc.push(FlatSection { path: string_from_chars(path.as_slice()), start_page: target, end_page: target });
                assert(sections_view(acc@) == before.push((path@, target)));
            },
            None => {},
        }
        let ghost mid = sections_view(acc@);
        let ghost own: Seq<(Seq<char>, usize)> = match node.target_page {
            Some(p) => seq![(path@, p)],
            None => Seq::empty(),
        };
        assert(mid == before + own);
        proof {
            assert(decreases_to!(nodes@ => nodes@[i as int]));
        }
        flatten_outlines(&node.children, &path, acc);
        proof {
            let t = nodes@.take(i as int);
            let t1 = nodes@.take(i + 1);
            let rest = nodes@.skip(i as int);
            assert(rest[0] == nodes@[i as int]);
            assert(rest.skip(1) == nodes@.skip(i + 1));
            lemma_flatten_append(t, seq![nodes@[i as int]], prefix@);
            assert(t + seq![nodes@[i as int]] == t1);
            assert(seq![nodes@[i as int]].skip(1) == Seq::<OutlineNode>::empty());
            lemma_flatten_append(t1, nodes@.skip(i + 1), prefix@);
            assert(t1 + nodes@.skip(i + 1) == nodes@);
            let single = seq![nodes@[i as int]];
            assert(flatten_spec(single, prefix@) == own + flatten_spec(node.children@, path@) + flatten_spec(single.skip(1), prefix@));
            assert(flatten_spec(single.skip(1), prefix@) == Seq::<(Seq<char>, usize)>::empty());
            assert(sections_view(acc@) == before + flatten_spec(single, prefix@));
        }
        i += 1;
    }
    assert(nodes@.take(nodes.len() as int) == nodes@);
}

pub proof fn lemma_flatten_append(a: Seq<OutlineNode>, b: Seq<OutlineNode>, prefix: Seq<char>)
    ensures
        flatten_spec(a + b, prefix) == flatten_spec(a, prefix) + flatten_spec(b, prefix),
    decreases a.len(),
{
    if a.len() == 0 {
        assert(a + b == b);
    } else {
        assert((a + b)[0] == a[0]);
        assert((a + b).skip(1) == a.skip(1) + b);
        lemma_flatten_append(a.skip(1), b, prefix);
    }
}


/// Windows of `size` characters starting at `start`, `start + step`, ...
/// (the last one cut at the end of the text), each trimmed, empty ones left
/// out; the scan stops after the window that reaches the end.
pub open spec fn windows_from(cs: Seq<char>, size: nat, step: nat, start: nat) -> Seq<Seq<char>>
    decreases (if start < cs.len() {
        cs.len() - start
    } else {
        0
    }),
{
    if start >= cs.len() || step == 0 {
        Seq::empty()
    } else {
        let end: nat = if start + size < cs.len() {
            start + size
        } else {
            cs.len()
        };
        let t = trim(cs.subrange(start as int, end as int));
        (if t.len() > 0 {
            seq![t]
        } else {
            Seq::empty()
        }) + (if end == cs.len() {
            Seq::empty()
        } else {
            windows_from(cs, size, step, start + step)
        })
    }
}

/// The step between windows: `size - overlap`, at least one.
pub open spec fn window_step(size: nat, overlap: nat) -> nat {
    if size > overlap && size - overlap >= 1 {
        (size - overlap) as nat
    } else {
        1
    }
}

/// The whole text when it fits in one window, else the sliding windows.
pub open spec fn sliding_windows(text: Seq<char>, size: nat, overlap: nat) -> Seq<Seq<char>> {
    if text.len() <= size {
        seq![text]
    } else {
        windows_from(text, size, window_step(size, overlap), 0)
    }
}

pub open spec fn strings_view(v: Seq<String>) -> Seq<Seq<char>> {
    v.map_values(|s: String| s@)
}

/// Cuts text into windows of `chunk_size` characters that overlap by
/// `overlap` characters.
pub fn split_by_sliding_window(text: &[char], chunk_size: usize, overlap: usize) -> (r: Vec<String>)
    ensures
        strings_view(r@) == sliding_windows(text@, chunk_size as nat, overlap as nat),
{
    let total = text.len();
    let mut result: Vec<String> = Vec::new();
    if total <= chunk_size {
        result.push(string_from_chars(text));
        assert(strings_view(result@) == seq![text@]);
        return result;
    }
    let step: usize = if chunk_size > overlap && chunk_size - overlap >= 1 { chunk_size - overlap } else { 1 };
    let mut start: usize = 0;
    while start < total
        invariant
            total == text.len(),
            chunk_size < total,
            step as nat == window_step(chunk_size as nat, overlap as nat),
            sliding_windows(text@, chunk_size as nat, overlap as nat) == strings_view(result@)
                + windows_from(text@, chunk_size as nat, step as nat, start as nat),
        decreases total - start,
    {
        let end = if total - start > chunk_size { start + chunk_size } else { total };
        let mut slice: Vec<char> = Vec::new();
        let mut k = start;
        while k < end
            invariant
                start <= k <= end <= total,
                total == text.len(),
                slice@ == text@.subrange(start as int, k as int),
            decreases end - k,
        {
            slice.push(text[k]);
            k += 1;
        }
        let t = trim_chars(slice.as_slice());
        let ghost before = strings_view(result@);
        if t.len() > 0 {
            result.push(string_from_chars(t.as_slice()));
            assert(strings_view(result@) == before.push(t@));
        }
        if end == total {
            assert(sliding_windows(text@, chunk_size as nat, overlap as nat) == strings_view(result@));
            return result;
        }
        if total - start <= step {
            assert(windows_from(text@, chunk_size as nat, step as nat, (start + step) as nat) == Seq::<Seq<char>>::empty());
            assert(sliding_windows(text@, chunk_size as nat, overlap as nat) == strings_view(result@));
            return result;
        }
        start += step;
    }
    result
}


/// The text of page `p`: the last entry for it in `pages`.
pub open spec fn page_text(pages: Seq<(usize, String)>, p: int) -> Option<Seq<char>>
    decreases pages.len(),
{
    if pages.len() == 0 {
        None
    } else if pages.last().0 == p {
        Some(pages.last().1@)
    } else {
        page_text(pages.drop_last(), p)
    }
}

/// The texts of pages `lo..=hi` that exist, separated by blank lines once
/// some text has been collected.
pub open spec fn join_pages(pages: Seq<(usize, String)>, lo: int, hi: int) -> Seq<char>
    decreases hi - lo + 1,
{
    if hi < lo {
        Seq::empty()
    } else {
        let acc = join_pages(pages, lo, hi - 1);
        match page_text(pages, hi) {
            Some(t) => if acc.len() == 0 {
                t
            } else {
                acc + "\n\n"@ + t
            },
            None => acc,
        }
    }
}

/// The last page of section `i`: one before the next section's first page,
/// or the document's last page; never before its own first page.
pub open spec fn section_end(flat: Seq<(Seq<char>, usize)>, i: int, total: nat) -> nat {
    let next: nat = if i + 1 < flat.len() {
        flat[i + 1].1 as nat
    } else {
        total + 1
    };
    if next > flat[i].1 {
        (next - 1) as nat
    } else {
        flat[i].1 as nat
    }
}

/// A chunk as a value: heading path, first and last page, text.
pub type ChunkSpec = (Seq<char>, nat, nat, Seq<char>);

/// The chunks of one section: its trimmed text, cut into windows when it is
/// longer than `size`.
pub open spec fn section_chunks(path: Seq<char>, lo: nat, hi: nat, pages: Seq<(usize, String)>, size: nat, overlap: nat) -> Seq<ChunkSpec> {
    let t = trim(join_pages(pages, lo as int, hi as int));
    if t.len() == 0 {
        Seq::empty()
    } else if t.len() > size {
        sliding_windows(t, size, overlap).map_values(|w: Seq<char>| (path, lo, hi, w))
    } else {
        seq![(path, lo, hi, t)]
    }
}

/// The chunks of sections `k..` of the flattened outline.
pub open spec fn heading_chunks(flat: Seq<(Seq<char>, usize)>, k: int, total: nat, pages: Seq<(usize, String)>, size: nat, overlap: nat) -> Seq<ChunkSpec>
    decreases flat.len() - k,
{
    if k >= flat.len() || k < 0 {
        Seq::empty()
    } else {
        section_chunks(flat[k].0, flat[k].1 as nat, section_end(flat, k, total), pages, size, overlap)
            + heading_chunks(flat, k + 1, total, pages, size, overlap)
    }
}

pub open spec fn effective_size(chunk_size: nat) -> nat {
    if chunk_size == 0 {
        500
    } else {
        chunk_size
    }
}

pub open spec fn effective_overlap(overlap: nat, size: nat) -> nat {
    if overlap >= size {
        size / 5
    } else {
        overlap
    }
}

/// All chunks: by outline sections under the heading strategy when the
/// document has bookmarks, else (or when that gives none) sliding windows
/// over the whole text.
pub open spec fn chunks_spec(strategy: Seq<char>, chunk_size: nat, overlap: nat, outlines: Option<Seq<OutlineNode>>, total: nat, pages: Seq<(usize, String)>) -> Seq<ChunkSpec> {
    let size = effective_size(chunk_size);
    let ov = effective_overlap(overlap, size);
    let by_heading: Seq<ChunkSpec> = if eq_ignore_ascii_case(strategy, "heading"@) {
        match outlines {
            Some(o) => if o.len() > 0 {
                heading_chunks(flatten_spec(o, Seq::empty()), 0, total, pages, size, ov)
            } else {
                Seq::empty()
            },
            None => Seq::empty(),
        }
    } else {
        Seq::empty()
    };
    if by_heading.len() > 0 {
        by_heading
    } else {
        sliding_windows(trim(join_pages(pages, 1, total as int)), size, ov).map_values(
            |w: Seq<char>| ("Document / SlidingWindow"@, 1nat, total, w),
        )
    }
}

/// Chunk `c` is the `i`-th of the list and carries `spec`.
pub open spec fn chunk_matches(c: ChunkItem, i: int, spec: ChunkSpec) -> bool {
    &&& c.chunk_id == i
    &&& c.heading_path@ == spec.0
    &&& c.page_range[0] as nat == spec.1
    &&& c.page_range[1] as nat == spec.2
    &&& c.text@ == spec.3
    &&& c.char_count == spec.3.len()
    &&& c.token_estimate as nat == tokens_for(spec.3.len())
}

pub open spec fn chunks_match(cs: Seq<ChunkItem>, specs: Seq<ChunkSpec>) -> bool {
    cs.len() == specs.len() && forall|i: int| 0 <= i < cs.len() ==> chunk_matches(#[trigger] cs[i], i, specs[i])
}

fn page_text_exec(pages: &Vec<(usize, String)>, p: usize) -> (r: Option<Vec<char>>)
    ensures
        r matches Some(v) ==> page_text(pages@, p as int) == Some(v@),
        r is None ==> page_text(pages@, p as int) is None,
{
    let mut j = pages.len();
    assert(pages@.take(pages.len() as int) == pages@);
    while j > 0
        invariant
            j <= pages.len(),
            page_text(pages@, p as int) == page_text(pages@.take(j as int), p as int),
        decreases j,
    {
        assert(pages@.take(j as int).drop_last() == pages@.take(j - 1));
        if pages[j - 1].0 == p {
            return Some(str_chars(pages[j - 1].1.as_str()));
        }
        j -= 1;
    }
    None
}

fn join_pages_exec(pages: &Vec<(usize, String)>, lo: usize, hi: usize) -> (r: Vec<char>)
    ensures
        r@ == join_pages(pages@, lo as int, hi as int),
{
    let mut out: Vec<char> = Vec::new();
    if hi < lo {
        return out;
    }
    let mut p = lo;
    loop
        invariant
            lo <= p <= hi,
            out@ == join_pages(pages@, lo as int, p - 1),
        decreases hi - p,
    {
        match page_text_exec(pages, p) {
            Some(t) => {
                if out.len() > 0 {
                    out.push('\n');
                    out.push('\n');
                    assert(out@ == join_pages(pages@, lo as int, p - 1) + "\n\n"@) by {
                        reveal_strlit("\n\n");
                    }
                }
                extend_chars(&mut out, t.as_slice());
            },
            None => {},
        }
        if p == hi {
            return out;
        }
        p += 1;
    }
}

fn make_chunk(id: usize, path: &Vec<char>, lo: usize, hi: usize, text: &Vec<char>) -> (c: ChunkItem)
    ensures
        chunk_matches(c, id as int, (path@, lo as nat, hi as nat, text@)),
{
    let n = text.len();
    ChunkItem {
        chunk_id: id,
        heading_path: string_from_chars(path.as_slice()),
        page_range: [lo, hi],
        text: string_from_chars(text.as_slice()),
        char_count: n,
        token_estimate: estimate_tokens(n),
    }
}

/// Pushes the windows of `t`, tagged with `path`, `lo` and `hi`.
fn push_windows(chunks: &mut Vec<ChunkItem>, t: &Vec<char>, size: usize, ov: usize, path: &Vec<char>, lo: usize, hi: usize)
    requires
        old(chunks)@.len() + sliding_windows(t@, size as nat, ov as nat).len() <= usize::MAX,
    ensures
        forall|i: int| 0 <= i < old(chunks)@.len() ==> final(chunks)@[i] == old(chunks)@[i],
        final(chunks)@.len() == old(chunks)@.len() + sliding_windows(t@, size as nat, ov as nat).len(),
        forall|i: int| old(chunks)@.len() <= i < final(chunks)@.len() ==> chunk_matches(
            #[trigger] final(chunks)@[i],
            i,
            (path@, lo as nat, hi as nat, sliding_windows(t@, size as nat, ov as nat)[i - old(chunks)@.len()]),
        ),
{
    let windows = split_by_sliding_window(t.as_slice(), size, ov);
    let ghost ws = sliding_windows(t@, size as nat, ov as nat);
    let ghost n0 = chunks@.len();
    let ghost c0 = chunks@;
    let mut k: usize = 0;
    while k < windows.len()
        invariant
            strings_view(windows@) == ws,
            n0 + ws.len() <= usize::MAX,
            k <= windows.len(),
            chunks@.len() == n0 + k,
            forall|i: int| 0 <= i < n0 ==> chunks@[i] == c0[i],
            forall|i: int| n0 <= i < chunks@.len() ==> chunk_matches(
                #[trigger] chunks@[i],
                i,
                (path@, lo as nat, hi as nat, ws[i - n0]),
            ),
        decreases windows.len() - k,
    {
        let w = str_chars(windows[k].as_str());
        assert(w@ == ws[k as int]);
        let c = make_chunk(chunks.len(), path, lo, hi, &w);
        chunks.push(c);
        k += 1;
    }
}

pub open spec fn outlines_view(o: Option<Vec<OutlineNode>>) -> Option<Seq<OutlineNode>> {
    match o {
        Some(v) => Some(v@),
        None => None,
    }
}

/// Cuts a document into retrieval chunks. `pages` holds each page's text
/// under its 1-based number, `outlines` the document's bookmarks.
pub fn chunk_document(
    file_path: &str,
    strategy: &str,
    chunk_size: usize,
    overlap: usize,
    outlines: &Option<Vec<OutlineNode>>,
    total_pages: usize,
    pages: &Vec<(usize, String)>,
) -> (r: ChunkResponse)
    requires
        total_pages < usize::MAX,
        chunks_spec(strategy@, chunk_size as nat, overlap as nat, outlines_view(*outlines), total_pages as nat, pages@).len() < usize::MAX,
    ensures
        r.status@ == "success"@,
        r.file@ == file_path@,
        r.strategy@ == strategy@,
        r.total_chunks == r.chunks@.len(),
        chunks_match(r.chunks@, chunks_spec(strategy@, chunk_size as nat, overlap as nat, outlines_view(*outlines), total_pages as nat, pages@)),
{
    let size: usize = if chunk_size == 0 { 500 } else { chunk_size };
    let ov: usize = if overlap >= size { size / 5 } else { overlap };
    let ghost all = chunks_spec(strategy@, chunk_size as nat, overlap as nat, outlines_view(*outlines), total_pages as nat, pages@);
    let mut chunks: Vec<ChunkItem> = Vec::new();
    let sv = str_chars(strategy);
    let hv = str_chars("heading");
    let ghost heading_total: Seq<ChunkSpec> = if eq_ignore_ascii_case(strategy@, "heading"@) {
        match outlines_view(*outlines) {
            Some(o) => if o.len() > 0 {
                heading_chunks(flatten_spec(o, Seq::empty()), 0, total_pages as nat, pages@, size as nat, ov as nat)
            } else {
                Seq::empty()
            },
            None => Seq::empty(),
        }
    } else {
        Seq::empty()
    };
    assert(heading_total.len() < usize::MAX);
    if eq_ignore_ascii_case_chars(sv.as_slice(), hv.as_slice()) {
        match outlines {
            Some(o) => {
                if o.len() > 0 {
                    let mut flat: Vec<FlatSection> = Vec::new();
                    let empty_prefix: Vec<char> = Vec::new();
                    flatten_outlines(o, &empty_prefix, &mut flat);
                    let ghost fl = sections_view(flat@);
                    assert(fl == flatten_spec(o@, Seq::empty()));
                    let n = flat.len();
                    let mut k: usize = 0;
                    let ghost mut done: Seq<ChunkSpec> = Seq::empty();
                    while k < n
                        invariant
                            n == flat@.len(),
                            fl == sections_view(flat@),
                            k <= n,
                            total_pages < usize::MAX,
                            heading_total == heading_chunks(fl, 0, total_pages as nat, pages@, size as nat, ov as nat),
                            heading_total.len() < usize::MAX,
                            heading_total == done + heading_chunks(fl, k as int, total_pages as nat, pages@, size as nat, ov as nat),
                            chunks_match(chunks@, done),
                        decreases n - k,
                    {
                        let start = flat[k].start_page;
                        assert(fl[k as int] == (flat@[k as int].path@, start));
                        let next: usize = if k + 1 < n { flat[k + 1].start_page } else { total_pages + 1 };
                        let end: usize = if next > start { next - 1 } else { start };
                        assert(end as nat == section_end(fl, k as int, total_pages as nat));
                        let path = str_chars(flat[k].path.as_str());
                        let joined = join_pages_exec(pages, start, end);
                        let t = trim_chars(joined.as_slice());
                        let ghost sec = section_chunks(path@, start as nat, end as nat, pages@, size as nat, ov as nat);
                        assert(heading_chunks(fl, k as int, total_pages as nat, pages@, size as nat, ov as nat)
                            == sec + heading_chunks(fl, k + 1, total_pages as nat, pages@, size as nat, ov as nat));
                        assert(heading_total == (done + sec) + heading_chunks(fl, k + 1, total_pages as nat, pages@, size as nat, ov as nat));
                        if t.len() > 0 {
                            if t.len() > size {
                                assert(sec.len() == sliding_windows(t@, size as nat, ov as nat).len());
                                push_windows(&mut chunks, &t, size, ov, &path, start, end);
                                assert(chunks_match(chunks@, done + sec));
                            } else {
                                let c = make_chunk(chunks.len(), &path, start, end, &t);
                                chunks.push(c);
                                assert(chunks_match(chunks@, done + sec));
                            }
                        } else {
                            assert(sec == Seq::<ChunkSpec>::empty());
                            assert(done + sec == done);
                        }
                        proof {
                            done = done + sec;
                        }
                        k += 1;
                    }
                    assert(heading_chunks(fl, n as int, total_pages as nat, pages@, size as nat, ov as nat) == Seq::<ChunkSpec>::empty());
                    assert(done == heading_total);
                }
            },
            None => {},
        }
    }
    assert(chunks_match(chunks@, heading_total));
    if chunks.len() == 0 {
        let joined = join_pages_exec(pages, 1, total_pages);
        let t = trim_chars(joined.as_slice());
        let path = str_chars("Document / SlidingWindow");
        assert(all == sliding_windows(t@, size as nat, ov as nat).map_values(
            |w: Seq<char>| ("Document / SlidingWindow"@, 1nat, total_pages as nat, w),
        ));
        push_windows(&mut chunks, &t, size, ov, &path, 1, total_pages);
    }
    let n = chunks.len();
    ChunkResponse {
        status: "success".to_owned(),
        file: file_path.to_owned(),
        strategy: strategy.to_owned(),
        total_chunks: n,
        chunks,
    }
}

/// No character of `s` is white space.
pub open spec fn no_white(s: Seq<char>) -> bool {
    forall|i: int| 0 <= i < s.len() ==> !is_white(#[trigger] s[i])
}

proof fn lemma_trim_keeps_plain(s: Seq<char>)
    requires
        no_white(s),
    ensures
        trim(s) == s,
{
    if s.len() > 0 {
        assert(!is_white(s[0]));
        assert(lead_ws(s) == 0);
        assert(s.skip(0) =~= s);
        assert(!is_white(s.last()));
        assert(trail_ws(s) == 0);
        assert(s.take(s.len() as int) =~= s);
    } else {
        assert(lead_ws(s) == 0);
        assert(trail_ws(s) == 0);
        assert(s.skip(0) =~= s);
        assert(s.take(0) =~= s);
    }
}

proof fn lemma_windows_overlap(cs: Seq<char>, size: nat, step: nat, start: nat)
    requires
        no_white(cs),
        start < cs.len(),
        1 <= step <= size,
    ensures
        ({
            let w = windows_from(cs, size, step, start);
            let end: nat = if start + size < cs.len() { start + size } else { cs.len() };
            &&& w.len() >= 1
            &&& w[0] == cs.subrange(start as int, end as int)
            &&& start + size < cs.len() ==> w.len() >= 2
            &&& forall|k: int| 0 <= k < w.len() - 1 ==> (#[trigger] w[k]).len() == size
                && w[k + 1].take(size - step) == w[k].skip(step as int)
            &&& w.last() == cs.skip(cs.len() - w.last().len())
        }),
    decreases cs.len() - start,
{
    let w = windows_from(cs, size, step, start);
    let end: nat = if start + size < cs.len() { start + size } else { cs.len() };
    let sub = cs.subrange(start as int, end as int);
    assert(no_white(sub)) by {
        assert forall|i: int| 0 <= i < sub.len() implies !is_white(#[trigger] sub[i]) by {
            assert(sub[i] == cs[start + i]);
        }
    }
    lemma_trim_keeps_plain(sub);
    if end == cs.len() {
        assert(w == seq![sub]);
        assert(sub =~= cs.skip(cs.len() - sub.len()));
    } else {
        let w2 = windows_from(cs, size, step, start + step);
        lemma_windows_overlap(cs, size, step, start + step);
        assert(w == seq![sub] + w2);
        let end2: nat = if start + step + size < cs.len() { start + step + size } else { cs.len() };
        assert forall|k: int| 0 <= k < w.len() - 1 implies (#[trigger] w[k]).len() == size
            && w[k + 1].take(size - step) == w[k].skip(step as int) by {
            if k == 0 {
                assert(w[0] == sub);
                assert(w[1] == w2[0]);
                assert(w2[0] == cs.subrange((start + step) as int, end2 as int));
                assert(w[1].take(size - step) =~= cs.subrange((start + step) as int, (start + size) as int));
                assert(sub.skip(step as int) =~= cs.subrange((start + step) as int, (start + size) as int));
            } else {
                assert(w[k] == w2[k - 1]);
                assert(w[k + 1] == w2[k]);
            }
        }
        assert(w.last() == w2.last());
    }
}

/// Sliding windows overlap as asked: when a text with no white space is
/// longer than the window size, and the overlap is less than that size,
/// the first window is the text's first `size` characters, each window but
/// the last is `size` characters long and the next one begins with its last
/// `overlap` characters, and the last window ends where the text ends.
pub proof fn law_windows_overlap(text: Seq<char>, size: nat, overlap: nat)
    requires
        0 < size,
        overlap < size,
        size < text.len(),
        no_white(text),
    ensures
        ({
            let w = sliding_windows(text, size, overlap);
            &&& w.len() >= 2
            &&& w[0] == text.take(size as int)
            &&& forall|k: int| 0 <= k < w.len() - 1 ==> (#[trigger] w[k]).len() == size
                && w[k + 1].take(overlap as int) == w[k].skip(size - overlap)
            &&& w.last() == text.skip(text.len() - w.last().len())
        }),
{
    let step = window_step(size, overlap);
    assert(step == size - overlap);
    lemma_windows_overlap(text, size, step, 0);
    assert(text.subrange(0, size as int) =~= text.take(size as int));
}

/// The chunk settings always give a window: the effective size is positive
/// and the effective overlap is less than it.
pub proof fn law_effective_window(chunk_size: nat, overlap: nat)
    ensures
        effective_size(chunk_size) > 0,
        effective_overlap(overlap, effective_size(chunk_size)) < effective_size(chunk_size),
{
}

/// An over-long outline section is cut exactly as the whole-document
/// fallback cuts text: its chunks are the sliding windows of its trimmed
/// text with the same size and overlap, each under the section's path and
/// pages; so (for text without white space) consecutive chunks share
/// `overlap` characters, the first is the section's first `size`
/// characters, and the last ends where the section ends.
pub proof fn law_section_chunks_overlap(
    path: Seq<char>,
    lo: nat,
    hi: nat,
    pages: Seq<(usize, String)>,
    size: nat,
    overlap: nat,
)
    requires
        0 < size,
        overlap < size,
        trim(join_pages(pages, lo as int, hi as int)).len() > size,
    ensures
        ({
            let t = trim(join_pages(pages, lo as int, hi as int));
            let c = section_chunks(path, lo, hi, pages, size, overlap);
            let w = sliding_windows(t, size, overlap);
            &&& c.len() == w.len()
            &&& forall|k: int| 0 <= k < c.len() ==> #[trigger] c[k] == (path, lo, hi, w[k])
            &&& no_white(t) ==> {
                &&& c.len() >= 2
                &&& c[0].3 == t.take(size as int)
                &&& forall|k: int| 0 <= k < c.len() - 1 ==> (#[trigger] c[k]).3.len() == size
                    && c[k + 1].3.take(overlap as int) == c[k].3.skip(size - overlap)
                &&& c.last().3 == t.skip(t.len() - c.last().3.len())
            }
        }),
{
    let t = trim(join_pages(pages, lo as int, hi as int));
    let c = section_chunks(path, lo, hi, pages, size, overlap);
    let w = sliding_windows(t, size, overlap);
    assert(c == w.map_values(|x: Seq<char>| (path, lo, hi, x)));
    if no_white(t) {
        law_windows_overlap(t, size, overlap);
        assert forall|k: int| 0 <= k < c.len() - 1 implies (#[trigger] c[k]).3.len() == size
            && c[k + 1].3.take(overlap as int) == c[k].3.skip(size - overlap) by {
            assert(c[k].3 == w[k]);
            assert(c[k + 1].3 == w[k + 1]);
        }
        assert(c.last().3 == w.last());
    }
}

proof fn lemma_windows_from_short(cs: Seq<char>, size: nat, step: nat, start: nat)
    ensures
        forall|i: int| 0 <= i < windows_from(cs, size, step, start).len() ==> {
            let w = #[trigger] windows_from(cs, size, step, start)[i];
            w.len() <= size && w.len() > 0
        },
    decreases (if start < cs.len() {
        cs.len() - start
    } else {
        0
    }),
{
    if start >= cs.len() || step == 0 {
    } else {
        let end: nat = if start + size < cs.len() { start + size } else { cs.len() };
        crate::text::lemma_trim_len(cs.subrange(start as int, end as int));
        if end != cs.len() {
            lemma_windows_from_short(cs, size, step, start + step);
        }
        let t = trim(cs.subrange(start as int, end as int));
        let head: Seq<Seq<char>> = if t.len() > 0 { seq![t] } else { Seq::empty() };
        let tail: Seq<Seq<char>> = if end == cs.len() { Seq::empty() } else { windows_from(cs, size, step, start + step) };
        assert(windows_from(cs, size, step, start) == head + tail);
        assert forall|i: int| 0 <= i < windows_from(cs, size, step, start).len() implies {
            let w = #[trigger] windows_from(cs, size, step, start)[i];
            w.len() <= size && w.len() > 0
        } by {
            if i < head.len() {
                assert(windows_from(cs, size, step, start)[i] == t);
            } else {
                assert(windows_from(cs, size, step, start)[i] == tail[i - head.len()]);
            }
        }
    }
}

/// No chunk of a sliding-window split is longer than the chunk size; when
/// the text is longer than that, no chunk is empty.
pub proof fn law_windows_fit_chunk_size(text: Seq<char>, size: nat, overlap: nat)
    ensures
        forall|i: int| 0 <= i < sliding_windows(text, size, overlap).len() ==> (#[trigger] sliding_windows(text, size, overlap)[i]).len() <= size,
        text.len() > size ==> forall|i: int| 0 <= i < sliding_windows(text, size, overlap).len()
            ==> (#[trigger] sliding_windows(text, size, overlap)[i]).len() > 0,
{
    if text.len() > size {
        lemma_windows_from_short(text, size, window_step(size, overlap), 0);
    }
}

} // verus!
