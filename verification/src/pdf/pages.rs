use vstd::prelude::*;

use crate::num::{parse_bounded, parse_unsigned_chars};
use crate::pdf::error::PdfCliError;
use crate::text::{eq_ignore_ascii_case, eq_ignore_ascii_case_chars, find_chars, find_first, push_decimal, push_str, str_chars};

verus! {

/// Page numbers `lo, lo + 1, ..., hi`.
pub open spec fn page_span(lo: nat, hi: nat) -> Seq<usize> {
    if lo <= hi {
        Seq::new((hi - lo + 1) as nat, |i: int| (lo + i) as usize)
    } else {
        Seq::empty()
    }
}

/// `str::parse::<usize>()`.
pub open spec fn parse_usize(s: Seq<char>) -> Option<nat> {
    parse_bounded(s, 10, usize::MAX as nat)
}

/// The pages that a `start:end` range selects, or `None` when it is
/// empty: a missing or unreadable start counts as 1 (and at least 1), a
/// missing or unreadable end as the last page (and at most the last page).
pub open spec fn colon_span(s: Seq<char>, i: int, total: nat) -> Option<Seq<usize>> {
    let start: nat = match parse_usize(s.take(i)) {
        Some(v) => if v >= 1 {
            v
        } else {
            1
        },
        None => 1,
    };
    let end: nat = match parse_usize(s.skip(i + 1)) {
        Some(v) => if v <= total {
            v
        } else {
            total
        },
        None => total,
    };
    if start > end {
        None
    } else {
        Some(page_span(start, end))
    }
}

/// Which pages a request selects: `Err(())` stands for an invalid-parameter
/// error (a page out of bounds, or an empty range).
pub open spec fn page_targets_spec(page: Option<usize>, range: Option<Seq<char>>, total: nat) -> Result<Seq<usize>, ()> {
    match page {
        Some(p) => if p == 0 || p > total {
            Err(())
        } else {
            Ok(seq![p])
        },
        None => match range {
            Some(r) => if eq_ignore_ascii_case(r, "all"@) {
                Ok(page_span(1, total))
            } else {
                match find_first(r, ":"@) {
                    Some(i) => match colon_span(r, i, total) {
                        Some(v) => Ok(v),
                        None => Err(()),
                    },
                    None => match parse_usize(r) {
                        Some(n) => if n == 0 || n > total {
                            Err(())
                        } else {
                            Ok(seq![n as usize])
                        },
                        None => Ok(page_span(1, total)),
                    },
                }
            },
            None => Ok(page_span(1, total)),
        },
    }
}

pub fn page_span_exec(lo: usize, hi: usize) -> (r: Vec<usize>)
    ensures
        r@ == page_span(lo as nat, hi as nat),
{
    let mut r: Vec<usize> = Vec::new();
    if lo > hi {
        return r;
    }
    let mut p = lo;
    loop
        invariant
            lo <= p <= hi,
            r@ == Seq::new((p - lo) as nat, |i: int| (lo + i) as usize),
        decreases hi - p,
    {
        r.push(p);
        assert(r@ =~= page_span(lo as nat, p as nat));
        if p == hi {
            return r;
        }
        p += 1;
    }
}

pub fn parse_usize_exec(s: &[char]) -> (r: Option<usize>)
    ensures
        r matches Some(v) ==> parse_usize(s@) == Some(v as nat),
        r is None ==> parse_usize(s@) is None,
{
    match parse_unsigned_chars(s, 10, usize::MAX as u64) {
        Some(v) => Some(v as usize),
        None => None,
    }
}

pub fn sub_chars(s: &[char], lo: usize, hi: usize) -> (r: Vec<char>)
    requires
        lo <= hi <= s.len(),
    ensures
        r@ == s@.subrange(lo as int, hi as int),
{
    let mut r: Vec<char> = Vec::new();
    let mut i = lo;
    while i < hi
        invariant
            lo <= i <= hi <= s.len(),
            r@ == s@.subrange(lo as int, i as int),
        decreases hi - i,
    {
        r.push(s[i]);
        i += 1;
    }
    r
}

/// The pages to read: one page, a range (`"all"`, `"start:end"` or a single
/// number) or, by default, every page.
pub fn resolve_page_targets(page: Option<usize>, range: Option<&str>, total_pages: usize) -> (r: Result<Vec<usize>, PdfCliError>)
    ensures
        r matches Ok(v) ==> page_targets_spec(page, match range { Some(s) => Some(s@), None => None }, total_pages as nat) == Ok::<Seq<usize>, ()>(v@),
        r matches Err(e) ==> page_targets_spec(page, match range { Some(s) => Some(s@), None => None }, total_pages as nat) == Err::<Seq<usize>, ()>(()) && e is InvalidParameter,
{
    if let Some(p) = page {
        if p == 0 || p > total_pages {
            let mut msg = "指定页码 ".to_owned();
            push_decimal(&mut msg, p);
            push_str(&mut msg, " 越界，文档共 ");
            push_decimal(&mut msg, total_pages);
            push_str(&mut msg, " 页");
            return Err(PdfCliError::InvalidParameter(msg));
        }
        let mut v: Vec<usize> = Vec::new();
        v.push(p);
        return Ok(v);
    }
    if let Some(rs) = range {
        let r = str_chars(rs);
        let all = str_chars("all");
        if eq_ignore_ascii_case_chars(r.as_slice(), all.as_slice()) {
            return Ok(page_span_exec(1, total_pages));
        }
        let colon = str_chars(":");
        proof {
            reveal_strlit(":");
        }
        match find_chars(r.as_slice(), colon.as_slice()) {
            Some(i) => {
                let a = sub_chars(r.as_slice(), 0, i);
                let b = sub_chars(r.as_slice(), i + 1, r.len());
                assert(a@ == r@.take(i as int));
                assert(b@ == r@.skip(i + 1));
                let start = match parse_usize_exec(a.as_slice()) {
                    Some(v) => if v >= 1 { v } else { 1 },
                    None => 1,
                };
                let end = match parse_usize_exec(b.as_slice()) {
                    Some(v) => if v <= total_pages { v } else { total_pages },
                    None => total_pages,
                };
                if start > end {
                    let mut msg = "无效的页码范围: start(".to_owned();
                    push_decimal(&mut msg, start);
                    push_str(&mut msg, ") > end(");
                    push_decimal(&mut msg, end);
                    push_str(&mut msg, ")");
                    return Err(PdfCliError::InvalidParameter(msg));
                }
                return Ok(page_span_exec(start, end));
            },
            None => {
                match parse_usize_exec(r.as_slice()) {
                    Some(n) => {
                        if n == 0 || n > total_pages {
                            let mut msg = "页码 ".to_owned();
                            push_decimal(&mut msg, n);
                            push_str(&mut msg, " 越界");
                            return Err(PdfCliError::InvalidParameter(msg));
                        }
                        let mut v: Vec<usize> = Vec::new();
                        v.push(n);
                        return Ok(v);
                    },
                    None => {},
                }
            },
        }
    }
    Ok(page_span_exec(1, total_pages))
}

/// The pages `lo..=hi` run upward, each one from `lo` to `hi`.
pub proof fn lemma_page_span(lo: nat, hi: nat)
    requires
        hi <= usize::MAX,
    ensures
        forall|i: int| 0 <= i < page_span(lo, hi).len() ==> lo <= #[trigger] page_span(lo, hi)[i] <= hi,
        forall|i: int, j: int| 0 <= i < j < page_span(lo, hi).len() ==> page_span(lo, hi)[i] < page_span(lo, hi)[j],
{
}

/// A `start:end` range selects pages of the document only, in increasing order.
pub proof fn lemma_colon_span(s: Seq<char>, i: int, total: nat)
    requires
        total <= usize::MAX,
    ensures
        colon_span(s, i, total) matches Some(v) ==> (forall|k: int| 0 <= k < v.len() ==> 1 <= #[trigger] v[k] <= total)
            && (forall|a: int, b: int| 0 <= a < b < v.len() ==> v[a] < v[b]),
{
    let start: nat = match parse_usize(s.take(i)) {
        Some(v) => if v >= 1 { v } else { 1 },
        None => 1,
    };
    let end: nat = match parse_usize(s.skip(i + 1)) {
        Some(v) => if v <= total { v } else { total },
        None => total,
    };
    lemma_page_span(start, end);
}

/// Every page a request selects lies in the document (from 1 to the last
/// page), and the pages come in increasing order.
pub proof fn law_page_targets_in_document(page: Option<usize>, range: Option<Seq<char>>, total: nat)
    requires
        total <= usize::MAX,
    ensures
        page_targets_spec(page, range, total) matches Ok(v) ==> (forall|k: int| 0 <= k < v.len() ==> 1 <= #[trigger] v[k] <= total)
            && (forall|a: int, b: int| 0 <= a < b < v.len() ==> v[a] < v[b]),
{
    lemma_page_span(1, total);
    if let Some(r) = range {
        if let Some(i) = find_first(r, ":"@) {
            lemma_colon_span(r, i, total);
        }
    }
}

/// The page that a layout inspection reads must lie in the document.
pub fn layout_page_check(page: usize, total_pages: usize) -> (r: Result<(), PdfCliError>)
    ensures
        r is Ok <==> 1 <= page <= total_pages,
        r matches Err(PdfCliError::InvalidParameter(m)) ==> m@ == "指定页码 "@ + crate::text::decimal(page as nat)
            + " 越界，文档总页数为 "@ + crate::text::decimal(total_pages as nat),
        r matches Err(e) ==> e is InvalidParameter,
{
    if page == 0 || page > total_pages {
        let mut msg = "指定页码 ".to_owned();
        push_decimal(&mut msg, page);
        push_str(&mut msg, " 越界，文档总页数为 ");
        push_decimal(&mut msg, total_pages);
        return Err(PdfCliError::InvalidParameter(msg));
    }
    Ok(())
}

} // verus!
