use vstd::prelude::*;

use crate::pdf::error::PdfCliError;
use crate::pdf::pages::{colon_span, page_span, page_span_exec, parse_usize, parse_usize_exec, sub_chars};
use crate::text::{
    decimal, decimal_chars, eq_ignore_ascii_case, eq_ignore_ascii_case_chars, find_chars, find_first, join_spec, join_strings,
    occurs_at, push_decimal, push_str, split_char, split_on, str_chars, string_from_chars, strings_view, trim, trim_chars,
};

verus! {

/// The outcome of merging, extracting or rotating pages.
pub struct TransformResponse {
    pub status: String,
    pub action: String,
    pub output_file: String,
    pub affected_pages: usize,
    pub message: String,
}

/// The outcome of stamping a watermark.
pub struct WatermarkResponse {
    pub status: String,
    pub action: String,
    pub output_file: String,
    pub watermarked_pages: usize,
    pub text: String,
}

/// The pages that comma-separated items name, in order: each item (blanks
/// around it ignored) a page number from 1 to `total`; `None` when one is
/// not.
pub open spec fn list_pages(items: Seq<Seq<char>>, total: nat) -> Option<Seq<usize>>
    decreases items.len(),
{
    if items.len() == 0 {
        Some(Seq::empty())
    } else {
        match list_pages(items.drop_last(), total) {
            Some(v) => match parse_usize(trim(items.last())) {
                Some(n) => if 1 <= n <= total {
                    Some(v.push(n as usize))
                } else {
                    None
                },
                None => None,
            },
            None => None,
        }
    }
}

/// The pages a range expression selects (`"all"`, a comma list such as
/// `"2,4"`, `"start:end"` or a single page); `Err(())` for an empty range, a
/// page out of bounds or an unreadable expression.
pub open spec fn parse_range_spec(expr: Seq<char>, total: nat) -> Result<Seq<usize>, ()> {
    if eq_ignore_ascii_case(expr, "all"@) {
        Ok(page_span(1, total))
    } else if find_first(expr, ","@) is Some {
        match list_pages(split_char(expr, ','), total) {
            Some(v) => Ok(v),
            None => Err(()),
        }
    } else {
        match find_first(expr, ":"@) {
            Some(i) => match colon_span(expr, i, total) {
                Some(v) => Ok(v),
                None => Err(()),
            },
            None => match parse_usize(expr) {
                Some(n) => if n == 0 || n > total {
                    Err(())
                } else {
                    Ok(seq![n as usize])
                },
                None => Err(()),
            },
        }
    }
}

proof fn lemma_list_pages_none(items: Seq<Seq<char>>, k: int, total: nat)
    requires
        0 < k <= items.len(),
        list_pages(items.take(k), total) is None,
    ensures
        list_pages(items, total) is None,
    decreases items.len() - k,
{
    if k < items.len() {
        assert(items.take(k + 1).drop_last() == items.take(k));
        lemma_list_pages_none(items, k + 1, total);
    } else {
        assert(items.take(k) == items);
    }
}

pub fn parse_range(expr: &str, total_pages: usize) -> (r: Result<Vec<usize>, PdfCliError>)
    ensures
        r matches Ok(v) ==> parse_range_spec(expr@, total_pages as nat) == Ok::<Seq<usize>, ()>(v@),
        r matches Err(e) ==> parse_range_spec(expr@, total_pages as nat) == Err::<Seq<usize>, ()>(()) && e is InvalidParameter,
{
    let r = str_chars(expr);
    let all = str_chars("all");
    if eq_ignore_ascii_case_chars(r.as_slice(), all.as_slice()) {
        return Ok(page_span_exec(1, total_pages));
    }
    let comma = str_chars(",");
    proof {
        reveal_strlit(",");
    }
    if find_chars(r.as_slice(), comma.as_slice()).is_some() {
        let items = split_on(r.as_slice(), ',');
        let ghost iv = items@.map_values(|v: Vec<char>| v@);
        assert(r@ == expr@);
        let mut out: Vec<usize> = Vec::new();
        let mut k: usize = 0;
        assert(iv.take(0) == Seq::<Seq<char>>::empty());
        while k < items.len()
            invariant
                k <= items.len(),
                iv == items@.map_values(|v: Vec<char>| v@),
                iv == split_char(expr@, ','),
                parse_range_spec(expr@, total_pages as nat) == match list_pages(iv, total_pages as nat) {
                    Some(v) => Ok::<Seq<usize>, ()>(v),
                    None => Err::<Seq<usize>, ()>(()),
                },
                list_pages(iv.take(k as int), total_pages as nat) == Some(out@),
            decreases items.len() - k,
        {
            assert(iv.take(k + 1).drop_last() == iv.take(k as int));
            assert(iv.take(k + 1).last() == items@[k as int]@);
            let t = trim_chars(items[k].as_slice());
            match parse_usize_exec(t.as_slice()) {
                Some(n) => {
                    if n == 0 || n > total_pages {
                        let mut msg = "页码 ".to_owned();
                        push_decimal(&mut msg, n);
                        push_str(&mut msg, " 越界");
                        proof {
                            lemma_list_pages_none(iv, k as int + 1, total_pages as nat);
                        }
                        return Err(PdfCliError::InvalidParameter(msg));
                    }
                    out.push(n);
                },
                None => {
                    let mut msg = "无法解析的页码范围表达式: '".to_owned();
                    push_str(&mut msg, expr);
                    push_str(&mut msg, "'");
                    proof {
                        lemma_list_pages_none(iv, k as int + 1, total_pages as nat);
                    }
                    return Err(PdfCliError::InvalidParameter(msg));
                },
            }
            k += 1;
        }
        assert(iv.take(items.len() as int) == iv);
        return Ok(out);
    }
    let colon = str_chars(":");
    proof {
        reveal_strlit(":");
    }
    match find_chars(r.as_slice(), colon.as_slice()) {
        Some(i) => {
            assert(colon@.len() == 1);
            assert(occurs_at(r@, colon@, i as int));
            assert(i + 1 <= r.len());
            let a = sub_chars(r.as_slice(), 0, i);
            let b = sub_chars(r.as_slice(), i + 1, r.len());
            assert(a@ == r@.take(i as int));
            assert(b@ == r@.skip(i + 1));
            let start = match parse_usize_exec(a.as_slice()) {
                Some(v) => if v >= 1 { v } else { 1 },
                None => 1,
            };
            let end = match parse_usize_exec(b.as_slice()) {
                Some(v) => if v <= total_pages { v } else { total_pages },
                None => total_pages,
            };
            if start > end {
                let mut msg = "无效范围: 起始页 ".to_owned();
                push_decimal(&mut msg, start);
                push_str(&mut msg, " 大于 终止页 ");
                push_decimal(&mut msg, end);
                return Err(PdfCliError::InvalidParameter(msg));
            }
            Ok(page_span_exec(start, end))
        },
        None => {
            match parse_usize_exec(r.as_slice()) {
                Some(n) => {
                    if n == 0 || n > total_pages {
                        let mut msg = "页码 ".to_owned();
                        push_decimal(&mut msg, n);
                        push_str(&mut msg, " 越界");
                        return Err(PdfCliError::InvalidParameter(msg));
                    }
                    let mut v: Vec<usize> = Vec::new();
                    v.push(n);
                    Ok(v)
                },
                None => {
                    let mut msg = "无法解析的页码范围表达式: '".to_owned();
                    push_str(&mut msg, expr);
                    push_str(&mut msg, "'");
                    Err(PdfCliError::InvalidParameter(msg))
                },
            }
        },
    }
}

/// A page's rotation after turning it clockwise by `degrees`, in `0..360`.
pub fn rotated(current: i32, degrees: i32) -> (r: i32)
    requires
        i32::MIN <= current + degrees <= i32::MAX,
    ensures
        r == (current + degrees) % 360,
        0 <= r < 360,
{
    let sum = current + degrees;
    let mut next = sum % 360;
    if next < 0 {
        next += 360;
    }
    next
}

/// The pages to rotate: one page, a range expression or every page; the
/// angle must be a multiple of 90 degrees.
pub open spec fn rotation_targets_spec(page: Option<usize>, range: Option<Seq<char>>, degrees: int, total: nat) -> Result<Seq<usize>, ()> {
    if degrees % 90 != 0 {
        Err(())
    } else {
        match page {
            Some(p) => if p == 0 || p > total {
                Err(())
            } else {
                Ok(seq![p])
            },
            None => match range {
                Some(r) => parse_range_spec(r, total),
                None => Ok(page_span(1, total)),
            },
        }
    }
}

pub fn rotation_targets(page: Option<usize>, range: Option<&str>, degrees: i32, total_pages: usize) -> (r: Result<Vec<usize>, PdfCliError>)
    ensures
        r matches Ok(v) ==> rotation_targets_spec(page, match range { Some(s) => Some(s@), None => None }, degrees as int, total_pages as nat) == Ok::<Seq<usize>, ()>(v@),
        r matches Err(e) ==> rotation_targets_spec(page, match range { Some(s) => Some(s@), None => None }, degrees as int, total_pages as nat) == Err::<Seq<usize>, ()>(()) && e is InvalidParameter,
{
    if degrees % 90 != 0 {
        return Err(PdfCliError::InvalidParameter("旋转角度必须为 90 的整数倍（例如 90, 180, 270）".to_owned()));
    }
    match page {
        Some(p) => {
            if p == 0 || p > total_pages {
                let mut msg = "页码 ".to_owned();
                push_decimal(&mut msg, p);
                push_str(&mut msg, " 越界");
                return Err(PdfCliError::InvalidParameter(msg));
            }
            let mut v: Vec<usize> = Vec::new();
            v.push(p);
            Ok(v)
        },
        None => match range {
            Some(r) => parse_range(r, total_pages),
            None => Ok(page_span_exec(1, total_pages)),
        },
    }
}

/// Turning a page by `a` and then by `b` leaves it as turning it once by
/// `a + b`, and a full turn leaves it as it was.
pub proof fn law_rotation_composes(c: int, a: int, b: int)
    ensures
        ((c + a) % 360 + b) % 360 == (c + a + b) % 360,
        (c + 360) % 360 == c % 360,
{
    vstd::arithmetic::div_mod::lemma_add_mod_noop_right(b, c + a, 360);
    vstd::arithmetic::div_mod::lemma_mod_add_multiples_vanish(c, 360);
}

proof fn lemma_list_pages_in_document(items: Seq<Seq<char>>, total: nat)
    ensures
        list_pages(items, total) matches Some(v) ==> forall|k: int| 0 <= k < v.len() ==> 1 <= #[trigger] v[k] <= total,
    decreases items.len(),
{
    if items.len() > 0 {
        lemma_list_pages_in_document(items.drop_last(), total);
    }
}

/// Every page a rotation selects lies in the document; but for a comma
/// list, which keeps the order it was written in, the pages come in
/// increasing order.
pub proof fn law_rotation_targets_in_document(page: Option<usize>, range: Option<Seq<char>>, degrees: int, total: nat)
    requires
        total <= usize::MAX,
    ensures
        rotation_targets_spec(page, range, degrees, total) matches Ok(v) ==> (forall|k: int| 0 <= k < v.len() ==> 1 <= #[trigger] v[k] <= total)
            && ((range matches Some(r) && find_first(r, ","@) is Some)
                || (forall|a: int, b: int| 0 <= a < b < v.len() ==> v[a] < v[b])),
{
    crate::pdf::pages::lemma_page_span(1, total);
    if let Some(r) = range {
        lemma_list_pages_in_document(split_char(r, ','), total);
        if let Some(i) = find_first(r, ":"@) {
            crate::pdf::pages::lemma_colon_span(r, i, total);
        }
    }
}

/// A path with its backslashes turned into forward slashes.
pub open spec fn forward_slashes(s: Seq<char>) -> Seq<char> {
    s.map_values(|c: char| if c == '\\' { '/' } else { c })
}

pub fn to_forward_slashes(s: &str) -> (r: String)
    ensures
        r@ == forward_slashes(s@),
{
    let v = str_chars(s);
    let mut out: Vec<char> = Vec::new();
    let mut i: usize = 0;
    while i < v.len()
        invariant
            i <= v.len(),
            out@ == forward_slashes(v@.take(i as int)),
        decreases v.len() - i,
    {
        let c = v[i];
        out.push(if c == '\\' { '/' } else { c });
        i += 1;
        assert(out@ =~= forward_slashes(v@.take(i as int)));
    }
    assert(v@.take(v.len() as int) == v@);
    string_from_chars(out.as_slice())
}

/// A merge needs at least two documents.
pub fn check_merge_inputs(count: usize) -> (r: Result<(), PdfCliError>)
    ensures
        r is Ok <==> count >= 2,
        r matches Err(PdfCliError::InvalidParameter(m)) ==> m@ == "合并操作至少需要提供 2 个 PDF 文件"@,
        r matches Err(e) ==> e is InvalidParameter,
{
    if count < 2 {
        Err(PdfCliError::InvalidParameter("合并操作至少需要提供 2 个 PDF 文件".to_owned()))
    } else {
        Ok(())
    }
}

/// The outcome of merging `files` documents into one of `pages` pages.
pub fn merge_response(files: usize, pages: usize, output_file: &str) -> (r: TransformResponse)
    ensures
        r.status@ == "success"@ && r.action@ == "merge"@ && r.output_file@ == forward_slashes(output_file@)
            && r.affected_pages == pages
            && r.message@ == "已成功将 "@ + decimal(files as nat) + " 个文档合并为 "@ + decimal(pages as nat) + " 页"@,
{
    let mut msg = "已成功将 ".to_owned();
    push_decimal(&mut msg, files);
    push_str(&mut msg, " 个文档合并为 ");
    push_decimal(&mut msg, pages);
    push_str(&mut msg, " 页");
    TransformResponse {
        status: "success".to_owned(),
        action: "merge".to_owned(),
        output_file: to_forward_slashes(output_file),
        affected_pages: pages,
        message: msg,
    }
}

/// The pages to keep when extracting pages: those the range selects, of
/// which there must be at least one.
pub fn extract_page_list(range_expr: &str, total_pages: usize) -> (r: Result<Vec<usize>, PdfCliError>)
    ensures
        r matches Ok(v) ==> parse_range_spec(range_expr@, total_pages as nat) == Ok::<Seq<usize>, ()>(v@) && v@.len() > 0,
        parse_range_spec(range_expr@, total_pages as nat) is Err ==> (r matches Err(e) && e is InvalidParameter),
        parse_range_spec(range_expr@, total_pages as nat) == Ok::<Seq<usize>, ()>(Seq::empty())
            ==> (r matches Err(PdfCliError::InvalidParameter(m)) && m@ == "页码范围 '"@ + range_expr@ + "' 未命中任何有效页面"@),
        parse_range_spec(range_expr@, total_pages as nat) matches Ok(v) && v.len() > 0 ==> r is Ok,
{
    let v = parse_range(range_expr, total_pages)?;
    if v.len() == 0 {
        let mut msg = "页码范围 '".to_owned();
        push_str(&mut msg, range_expr);
        push_str(&mut msg, "' 未命中任何有效页面");
        assert(v@ =~= Seq::<usize>::empty());
        return Err(PdfCliError::InvalidParameter(msg));
    }
    Ok(v)
}

/// The page numbers that are not kept, in order.
pub open spec fn removed_pages(nums: Seq<u32>, keep: Seq<usize>) -> Seq<u32>
    decreases nums.len(),
{
    if nums.len() == 0 {
        Seq::empty()
    } else {
        let rest = removed_pages(nums.drop_last(), keep);
        if keep.contains(nums.last() as usize) {
            rest
        } else {
            rest.push(nums.last())
        }
    }
}

pub fn pages_to_remove(page_nums: &Vec<u32>, keep: &Vec<usize>) -> (r: Vec<u32>)
    ensures
        r@ == removed_pages(page_nums@, keep@),
{
    let mut out: Vec<u32> = Vec::new();
    let mut i: usize = 0;
    while i < page_nums.len()
        invariant
            i <= page_nums.len(),
            out@ == removed_pages(page_nums@.take(i as int), keep@),
        decreases page_nums.len() - i,
    {
        assert(page_nums@.take(i + 1).drop_last() == page_nums@.take(i as int));
        let n = page_nums[i];
        let mut kept = false;
        let mut k: usize = 0;
        while k < keep.len()
            invariant
                k <= keep.len(),
                kept == (exists|j: int| 0 <= j < k && keep@[j] == n as usize),
            decreases keep.len() - k,
        {
            if keep[k] == n as usize {
                kept = true;
            }
            k += 1;
        }
        proof {
            if kept {
                let j = choose|j: int| 0 <= j < keep@.len() && keep@[j] == n as usize;
                assert(keep@.contains(n as usize));
            } else {
                assert(!keep@.contains(n as usize));
            }
        }
        if !kept {
            out.push(n);
        }
        i += 1;
    }
    assert(page_nums@.take(page_nums.len() as int) == page_nums@);
    out
}

/// `{:?}` of a list of page numbers, such as `[1, 2, 3]`.
pub open spec fn page_list_text(v: Seq<usize>) -> Seq<char> {
    "["@ + join_spec(v.map_values(|n: usize| decimal(n as nat)), ", "@) + "]"@
}

/// The outcome of extracting `pages` into `output_file`.
pub fn extract_pages_response(pages: &Vec<usize>, output_file: &str) -> (r: TransformResponse)
    ensures
        r.status@ == "success"@ && r.action@ == "extract-pages"@ && r.output_file@ == forward_slashes(output_file@)
            && r.affected_pages == pages@.len()
            && r.message@ == "已提取第 "@ + page_list_text(pages@) + " 页到新文件"@,
{
    let mut parts: Vec<String> = Vec::new();
    let mut i: usize = 0;
    while i < pages.len()
        invariant
            i <= pages.len(),
            strings_view(parts@) == pages@.take(i as int).map_values(|n: usize| decimal(n as nat)),
        decreases pages.len() - i,
    {
        let d = decimal_chars(pages[i]);
        let ds = string_from_chars(d.as_slice());
        let ghost prev = parts@;
        parts.push(ds);
        assert(strings_view(parts@) =~= strings_view(prev).push(ds@));
        assert(pages@.take(i + 1).map_values(|n: usize| decimal(n as nat))
            =~= pages@.take(i as int).map_values(|n: usize| decimal(n as nat)).push(decimal(pages@[i as int] as nat)));
        i += 1;
    }
    assert(pages@.take(pages.len() as int) == pages@);
    let joined = join_strings(&parts, ", ");
    let mut msg = "已提取第 [".to_owned();
    push_str(&mut msg, joined.as_str());
    push_str(&mut msg, "] 页到新文件");
    proof {
        reveal_strlit("已提取第 [");
        reveal_strlit("已提取第 ");
        reveal_strlit("[");
        reveal_strlit("] 页到新文件");
        reveal_strlit("]");
        reveal_strlit(" 页到新文件");
    }
    assert(msg@ =~= "已提取第 "@ + page_list_text(pages@) + " 页到新文件"@);
    TransformResponse {
        status: "success".to_owned(),
        action: "extract-pages".to_owned(),
        output_file: to_forward_slashes(output_file),
        affected_pages: pages.len(),
        message: msg,
    }
}

/// Decimal text of a signed number.
pub open spec fn signed_decimal(n: int) -> Seq<char> {
    if n < 0 {
        "-"@ + decimal((-n) as nat)
    } else {
        decimal(n as nat)
    }
}

/// The outcome of turning `count` pages by `degrees`, saved to `output_file`.
pub fn rotate_response(count: usize, degrees: i32, output_file: &str) -> (r: TransformResponse)
    ensures
        r.status@ == "success"@ && r.action@ == "rotate"@ && r.output_file@ == forward_slashes(output_file@)
            && r.affected_pages == count
            && r.message@ == "已成功将 "@ + decimal(count as nat) + " 个页面旋转 "@ + signed_decimal(degrees as int) + " 度"@,
{
    let mut msg = "已成功将 ".to_owned();
    push_decimal(&mut msg, count);
    push_str(&mut msg, " 个页面旋转 ");
    let ghost before = msg@;
    if degrees < 0 {
        push_str(&mut msg, "-");
        let m: u64 = (-(degrees as i64)) as u64;
        crate::text::push_decimal_u64(&mut msg, m);
        proof {
            reveal_strlit("-");
        }
    } else {
        crate::text::push_decimal_u64(&mut msg, degrees as u64);
    }
    assert(msg@ =~= before + signed_decimal(degrees as int));
    push_str(&mut msg, " 度");
    TransformResponse {
        status: "success".to_owned(),
        action: "rotate".to_owned(),
        output_file: to_forward_slashes(output_file),
        affected_pages: count,
        message: msg,
    }
}

/// A watermark needs some text besides blanks.
pub fn check_watermark_text(text: &str) -> (r: Result<(), PdfCliError>)
    ensures
        r is Ok <==> trim(text@).len() > 0,
        r matches Err(PdfCliError::InvalidParameter(m)) ==> m@ == "水印文本内容不能为空"@,
        r matches Err(e) ==> e is InvalidParameter,
{
    let t = trim_chars(str_chars(text).as_slice());
    if t.len() == 0 {
        Err(PdfCliError::InvalidParameter("水印文本内容不能为空".to_owned()))
    } else {
        Ok(())
    }
}

/// The outcome of stamping `text` on `pages` pages, saved to `output_file`.
pub fn watermark_response(output_file: &str, pages: usize, text: &str) -> (r: WatermarkResponse)
    ensures
        r.status@ == "success"@ && r.action@ == "watermark"@ && r.output_file@ == forward_slashes(output_file@)
            && r.watermarked_pages == pages && r.text@ == text@,
{
    WatermarkResponse {
        status: "success".to_owned(),
        action: "watermark".to_owned(),
        output_file: to_forward_slashes(output_file),
        watermarked_pages: pages,
        text: text.to_owned(),
    }
}

} // verus!
