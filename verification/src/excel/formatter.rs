use vstd::prelude::*;
use vstd::utf8::{encode_scalar, encode_utf8};

use crate::excel::error::AppError;
use crate::excel::reader::{parse_range_str, range_cols_fit, range_spec};
use crate::excel::writer::{col_letters, opt_name, resolve_sheet, sheet_choice, sheet_error, SheetInfo};
use crate::num::parse_bounded;
use crate::pdf::cmap::{strip_leading, strip_leading_chars};
use crate::text::{
    ascii_upper, ascii_uppercase_chars, chars_eq, decimal, push_chars, push_decimal, push_str, str_chars,
    string_from_chars, utf8_len,
};
use crate::unicode::{lowercase, to_lowercase, to_uppercase, uppercase};

verus! {

/// An ARGB colour from hex text: leading `#` signs dropped, letters in
/// upper case, and `FF` (opaque) put in front of six-byte text.
pub open spec fn hex_color(hex: Seq<char>) -> Seq<char> {
    let clean = strip_leading(hex, '#');
    let up = clean.map_values(|c: char| ascii_upper(c));
    if encode_utf8(clean).len() == 6 {
        "FF"@ + up
    } else {
        up
    }
}

/// Parses a colour such as `4F81BD` or `#4F81BD` into ARGB text.
pub fn parse_hex_color(hex: &str) -> (r: String)
    ensures
        r@ == hex_color(hex@),
{
    let v = str_chars(hex);
    let clean = strip_leading_chars(v.as_slice(), '#');
    let up = ascii_uppercase_chars(clean.as_slice());
    if utf8_len(clean.as_slice()) == 6 {
        let mut out = "FF".to_owned();
        push_chars(&mut out, up.as_slice());
        out
    } else {
        string_from_chars(up.as_slice())
    }
}

/// The column number that letters name: `A` is 1, `Z` 26, `AA` 27, each
/// letter counting its offset from `A` plus one.
pub open spec fn letters_value(s: Seq<char>) -> int
    decreases s.len(),
{
    if s.len() == 0 {
        0
    } else {
        letters_value(s.drop_last()) * 26 + (s.last() as u32 - 65 + 1)
    }
}

/// The letters can be counted in a `u32`: none comes before `A` and the
/// value fits.
pub open spec fn letters_ok(s: Seq<char>) -> bool {
    (forall|i: int| 0 <= i < s.len() ==> (#[trigger] s[i]) as u32 >= 65) && letters_value(s) <= u32::MAX
}

proof fn lemma_letters_nonneg(s: Seq<char>)
    requires
        forall|i: int| 0 <= i < s.len() ==> (#[trigger] s[i]) as u32 >= 65,
    ensures
        letters_value(s) >= 0,
    decreases s.len(),
{
    if s.len() > 0 {
        lemma_letters_nonneg(s.drop_last());
        let v = letters_value(s.drop_last());
        assert(v * 26 >= 0) by (nonlinear_arith)
            requires
                v >= 0,
        ;
    }
}

proof fn lemma_letters_prefix(s: Seq<char>, k: int)
    requires
        0 <= k <= s.len(),
        forall|i: int| 0 <= i < s.len() ==> (#[trigger] s[i]) as u32 >= 65,
    ensures
        letters_value(s.take(k)) <= letters_value(s),
    decreases s.len(),
{
    if k == s.len() {
        assert(s.take(k) == s);
    } else {
        let d = s.drop_last();
        assert(d.take(k) == s.take(k));
        lemma_letters_prefix(d, k);
        lemma_letters_nonneg(d);
        let v = letters_value(d);
        assert(v <= v * 26 + (s.last() as u32 - 64)) by (nonlinear_arith)
            requires
                v >= 0,
                s.last() as u32 >= 65,
        ;
    }
}

fn all_from_a(v: &[char]) -> (b: bool)
    ensures
        b == (forall|j: int| 0 <= j < v@.len() ==> (#[trigger] v@[j]) as u32 >= 65),
{
    let mut i: usize = 0;
    while i < v.len()
        invariant
            i <= v.len(),
            forall|j: int| 0 <= j < i ==> (#[trigger] v@[j]) as u32 >= 65,
        decreases v.len() - i,
    {
        if (v[i] as u32) < 65 {
            assert(!((v@[i as int]) as u32 >= 65));
            return false;
        }
        i += 1;
    }
    true
}

/// Whether column letters can be counted without overflow.
pub fn letters_fit(letter: &str) -> (b: bool)
    ensures
        b == letters_ok(uppercase(letter@)),
{
    let up = str_chars(to_uppercase(letter).as_str());
    if !all_from_a(up.as_slice()) {
        return false;
    }
    let mut acc: u64 = 0;
    let mut i: usize = 0;
    while i < up.len()
        invariant
            i <= up.len(),
            up@ == uppercase(letter@),
            forall|j: int| 0 <= j < up@.len() ==> (#[trigger] up@[j]) as u32 >= 65,
            acc as int == letters_value(up@.take(i as int)),
            acc <= u32::MAX,
        decreases up.len() - i,
    {
        assert(up@.take(i + 1).drop_last() == up@.take(i as int));
        let c: u32 = up[i] as u32;
        assert(up@[i as int] as u32 >= 65);
        assert(acc * 26 <= 26 * 0xFFFF_FFFFu64) by (nonlinear_arith)
            requires
                acc <= 0xFFFF_FFFFu64,
        ;
        let next: u64 = acc * 26 + (c as u64 - 64);
        assert(next as int == letters_value(up@.take(i + 1)));
        if next > 0xFFFF_FFFF {
            proof {
                lemma_letters_prefix(up@, i as int + 1);
            }
            return false;
        }
        acc = next;
        i += 1;
    }
    assert(up@.take(up.len() as int) == up@);
    true
}

/// The column number of Excel column letters (case does not matter).
pub fn letter_to_col(letter: &str) -> (n: u32)
    requires
        letters_ok(uppercase(letter@)),
    ensures
        n as int == letters_value(uppercase(letter@)),
{
    let up = str_chars(to_uppercase(letter).as_str());
    let mut acc: u32 = 0;
    let mut i: usize = 0;
    while i < up.len()
        invariant
            i <= up.len(),
            letters_ok(up@),
            acc as int == letters_value(up@.take(i as int)),
        decreases up.len() - i,
    {
        assert(up@.take(i + 1).drop_last() == up@.take(i as int));
        proof {
            lemma_letters_prefix(up@, i as int + 1);
        }
        acc = acc * 26 + (up[i] as u32 - 65 + 1);
        i += 1;
    }
    assert(up@.take(up.len() as int) == up@);
    acc
}

/// Decides a merge of the cells of `range_coord` on the chosen sheet: the
/// sheet's index and the message.
pub fn merge_cells(sheets: &Vec<SheetInfo>, sheet_name: Option<&str>, range_coord: &str) -> (r: Result<(usize, String), AppError>)
    ensures
        sheet_choice(sheets@, opt_name(sheet_name)) is None ==> (r matches Err(e) && sheet_error(opt_name(sheet_name), e)),
        sheet_choice(sheets@, opt_name(sheet_name)) matches Some(i) ==> (r matches Ok(p) && p.0 == i
            && p.1@ == "单元格合并成功："@ + range_coord@),
{
    let idx = resolve_sheet(sheets, sheet_name)?;
    let mut msg = "单元格合并成功：".to_owned();
    push_str(&mut msg, range_coord);
    Ok((idx, msg))
}

/// A row or column edit: where it starts and how many rows or columns.
pub enum GridOp {
    InsertRow(u32, u32),
    DeleteRow(u32, u32),
    InsertCol(String, u32),
    DeleteCol(u32, u32),
}

/// A grid edit on a sheet, with its message.
pub struct GridPlan {
    pub sheet_index: usize,
    pub op: GridOp,
    pub message: String,
}

/// `str::parse::<u32>`.
pub open spec fn parse_u32(s: Seq<char>) -> Option<nat> {
    parse_bounded(s, 10, 4294967295)
}

/// A row number for a grid edit: a positive integer that fits a `u32`.
pub open spec fn row_number_ok(s: Seq<char>) -> bool {
    parse_u32(s) matches Some(n) && n > 0
}

/// Where a grid action applies, given that it is known.
pub open spec fn grid_ok(p: GridPlan, action: Seq<char>, target: Seq<char>, count: u32) -> bool {
    if action == "insert-row"@ {
        p.op == GridOp::InsertRow(parse_u32(target).unwrap() as u32, count)
            && p.message@ == "已在第 "@ + decimal(parse_u32(target).unwrap()) + " 行前插入 "@ + decimal(count as nat) + " 行"@
    } else if action == "delete-row"@ {
        p.op == GridOp::DeleteRow(parse_u32(target).unwrap() as u32, count)
            && p.message@ == "已从第 "@ + decimal(parse_u32(target).unwrap()) + " 行开始删除 "@ + decimal(count as nat) + " 行"@
    } else if action == "insert-col"@ {
        (p.op matches GridOp::InsertCol(c, n) && c@ == uppercase(target) && n == count)
            && p.message@ == "已在列 "@ + uppercase(target) + " 前插入 "@ + decimal(count as nat) + " 列"@
    } else {
        p.op == GridOp::DeleteCol(
            (match parse_u32(target) { Some(n) => n, None => letters_value(uppercase(target)) as nat }) as u32, count)
            && p.message@ == "已从列 "@ + target + " 开始删除 "@ + decimal(count as nat) + " 列"@
    }
}

/// Decides a row or column edit: `insert-row` and `delete-row` take a row
/// number, `insert-col` column letters, `delete-col` a column number or
/// letters.
pub fn modify_grid(sheets: &Vec<SheetInfo>, sheet_name: Option<&str>, action: &str, target: &str, count: u32)
    -> (r: Result<GridPlan, AppError>)
    requires
        sheet_choice(sheets@, opt_name(sheet_name)) is Some && action@ == "delete-col"@ && parse_u32(target@) is None
            ==> letters_ok(uppercase(target@)),
    ensures
        sheet_choice(sheets@, opt_name(sheet_name)) is None ==> (r matches Err(e) && sheet_error(opt_name(sheet_name), e)),
        sheet_choice(sheets@, opt_name(sheet_name)) matches Some(i) ==> {
            if (action@ == "insert-row"@ || action@ == "delete-row"@) && !row_number_ok(target@) {
                r matches Err(AppError::General(m)) && m@ == "行号必须是正整数"@
            } else if action@ == "insert-row"@ || action@ == "delete-row"@ || action@ == "insert-col"@ || action@ == "delete-col"@ {
                r matches Ok(p) && p.sheet_index == i && grid_ok(p, action@, target@, count)
            } else {
                r matches Err(AppError::General(m))
                    && m@ == "不支持的操作: "@ + action@ + "。可选: insert-row, delete-row, insert-col, delete-col"@
            }
        },
{
    let idx = resolve_sheet(sheets, sheet_name)?;
    let a = str_chars(action);
    let t = str_chars(target);
    proof {
        reveal_strlit("insert-row");
        reveal_strlit("delete-row");
        reveal_strlit("insert-col");
        reveal_strlit("delete-col");
    }
    let is_ins_row = chars_eq(a.as_slice(), str_chars("insert-row").as_slice());
    let is_del_row = chars_eq(a.as_slice(), str_chars("delete-row").as_slice());
    let is_ins_col = chars_eq(a.as_slice(), str_chars("insert-col").as_slice());
    let is_del_col = chars_eq(a.as_slice(), str_chars("delete-col").as_slice());
    if is_ins_row || is_del_row {
        let row = match crate::num::parse_unsigned_chars(t.as_slice(), 10, 4294967295) {
            Some(v) if v > 0 => v as u32,
            _ => {
                return Err(AppError::General("行号必须是正整数".to_owned()));
            },
        };
        let mut msg = if is_ins_row { "已在第 ".to_owned() } else { "已从第 ".to_owned() };
        push_decimal(&mut msg, row as usize);
        if is_ins_row {
            push_str(&mut msg, " 行前插入 ");
        } else {
            push_str(&mut msg, " 行开始删除 ");
        }
        push_decimal(&mut msg, count as usize);
        push_str(&mut msg, " 行");
        let op = if is_ins_row { GridOp::InsertRow(row, count) } else { GridOp::DeleteRow(row, count) };
        Ok(GridPlan { sheet_index: idx, op, message: msg })
    } else if is_ins_col {
        let col = to_uppercase(target);
        let mut msg = "已在列 ".to_owned();
        push_str(&mut msg, col.as_str());
        push_str(&mut msg, " 前插入 ");
        push_decimal(&mut msg, count as usize);
        push_str(&mut msg, " 列");
        Ok(GridPlan { sheet_index: idx, op: GridOp::InsertCol(col, count), message: msg })
    } else if is_del_col {
        let n = match crate::num::parse_unsigned_chars(t.as_slice(), 10, 4294967295) {
            Some(v) => v as u32,
            None => letter_to_col(target),
        };
        let mut msg = "已从列 ".to_owned();
        push_str(&mut msg, target);
        push_str(&mut msg, " 开始删除 ");
        push_decimal(&mut msg, count as usize);
        push_str(&mut msg, " 列");
        Ok(GridPlan { sheet_index: idx, op: GridOp::DeleteCol(n, count), message: msg })
    } else {
        let mut msg = "不支持的操作: ".to_owned();
        push_str(&mut msg, action);
        push_str(&mut msg, "。可选: insert-row, delete-row, insert-col, delete-col");
        Err(AppError::General(msg))
    }
}

/// The column number of column letters, or `None` when it does not fit in
/// a `u32`.
pub fn letter_to_col_checked(letter: &str) -> (r: Option<u32>)
    ensures
        r is None <==> !letters_ok(uppercase(letter@)),
        r matches Some(n) ==> n as int == letters_value(uppercase(letter@)),
{
    if letters_fit(letter) {
        Some(letter_to_col(letter))
    } else {
        None
    }
}

/// `modify_grid`, or `None` when a column to delete is given by letters
/// whose number does not fit in a `u32`.
pub fn modify_grid_checked(sheets: &Vec<SheetInfo>, sheet_name: Option<&str>, action: &str, target: &str, count: u32)
    -> (r: Option<Result<GridPlan, AppError>>)
    ensures
        r is None <==> (sheet_choice(sheets@, opt_name(sheet_name)) is Some && action@ == "delete-col"@
            && parse_u32(target@) is None && !letters_ok(uppercase(target@))),
        r matches Some(res) ==> sheet_choice(sheets@, opt_name(sheet_name)) is None
            ==> (res matches Err(e) && sheet_error(opt_name(sheet_name), e)),
        r matches Some(res) ==> sheet_choice(sheets@, opt_name(sheet_name)) matches Some(i) ==> {
            if (action@ == "insert-row"@ || action@ == "delete-row"@) && !row_number_ok(target@) {
                res matches Err(AppError::General(m)) && m@ == "行号必须是正整数"@
            } else if action@ == "insert-row"@ || action@ == "delete-row"@ || action@ == "insert-col"@ || action@ == "delete-col"@ {
                res matches Ok(p) && p.sheet_index == i && grid_ok(p, action@, target@, count)
            } else {
                res matches Err(AppError::General(m))
                    && m@ == "不支持的操作: "@ + action@ + "。可选: insert-row, delete-row, insert-col, delete-col"@
            }
        },
{
    proof {
        reveal_strlit("delete-col");
    }
    let chosen = resolve_sheet(sheets, sheet_name).is_ok();
    let is_del_col = chars_eq(str_chars(action).as_slice(), str_chars("delete-col").as_slice());
    if chosen && is_del_col && crate::num::parse_unsigned_chars(str_chars(target).as_slice(), 10, 4294967295).is_none()
        && !letters_fit(target) {
        return None;
    }
    Some(modify_grid(sheets, sheet_name, action, target, count))
}

/// Horizontal alignment choices.
#[derive(PartialEq, Eq, Structural, Clone, Copy)]
pub enum HAlign {
    Left,
    Center,
    Right,
}

/// Vertical alignment choices.
#[derive(PartialEq, Eq, Structural, Clone, Copy)]
pub enum VAlign {
    Top,
    Center,
    Bottom,
}

/// The horizontal alignment an alignment word names (by its lowercase form).
pub open spec fn h_align(word: Seq<char>) -> Option<HAlign> {
    let w = lowercase(word);
    if w == "left"@ {
        Some(HAlign::Left)
    } else if w == "center"@ || w == "centre"@ {
        Some(HAlign::Center)
    } else if w == "right"@ {
        Some(HAlign::Right)
    } else {
        None
    }
}

/// The vertical alignment an alignment word names (by its lowercase form).
pub open spec fn v_align(word: Seq<char>) -> Option<VAlign> {
    let w = lowercase(word);
    if w == "top"@ {
        Some(VAlign::Top)
    } else if w == "center"@ || w == "centre"@ {
        Some(VAlign::Center)
    } else if w == "bottom"@ {
        Some(VAlign::Bottom)
    } else {
        None
    }
}

/// An alignment word names the left alignment exactly when its lowercase
/// form is "left", the centre exactly when it is "center" or "centre", the
/// right exactly when it is "right", and none otherwise.
pub proof fn law_h_align_words(word: Seq<char>)
    ensures
        h_align(word) == Some(HAlign::Left) <==> lowercase(word) == "left"@,
        h_align(word) == Some(HAlign::Center) <==> (lowercase(word) == "center"@ || lowercase(word) == "centre"@),
        h_align(word) == Some(HAlign::Right) <==> lowercase(word) == "right"@,
        h_align(word) is None <==> !(lowercase(word) == "left"@ || lowercase(word) == "center"@
            || lowercase(word) == "centre"@ || lowercase(word) == "right"@),
{
    lemma_align_words_differ();
}

/// Two words name the same horizontal alignment only when their lowercase
/// forms are equal or both spell the centre ("center", "centre").
pub proof fn law_h_align_distinct(a: Seq<char>, b: Seq<char>)
    requires
        h_align(a) is Some,
        h_align(a) == h_align(b),
    ensures
        lowercase(a) == lowercase(b) || ((lowercase(a) == "center"@ || lowercase(a) == "centre"@) && (
        lowercase(b) == "center"@ || lowercase(b) == "centre"@)),
{
    law_h_align_words(a);
    law_h_align_words(b);
}

/// A vertical alignment word names the top exactly when its lowercase form
/// is "top", the centre exactly when it is "center" or "centre", the bottom
/// exactly when it is "bottom", and none otherwise.
pub proof fn law_v_align_words(word: Seq<char>)
    ensures
        v_align(word) == Some(VAlign::Top) <==> lowercase(word) == "top"@,
        v_align(word) == Some(VAlign::Center) <==> (lowercase(word) == "center"@ || lowercase(word) == "centre"@),
        v_align(word) == Some(VAlign::Bottom) <==> lowercase(word) == "bottom"@,
        v_align(word) is None <==> !(lowercase(word) == "top"@ || lowercase(word) == "center"@
            || lowercase(word) == "centre"@ || lowercase(word) == "bottom"@),
{
    lemma_align_words_differ();
}

proof fn lemma_align_words_differ()
    ensures
        "left"@ != "center"@ && "left"@ != "centre"@ && "left"@ != "right"@,
        "center"@ != "centre"@ && "center"@ != "right"@ && "centre"@ != "right"@,
        "top"@ != "center"@ && "top"@ != "centre"@ && "top"@ != "bottom"@,
        "center"@ != "bottom"@ && "centre"@ != "bottom"@,
{
    reveal_strlit("left");
    reveal_strlit("center");
    reveal_strlit("centre");
    reveal_strlit("right");
    reveal_strlit("top");
    reveal_strlit("bottom");
    assert("left"@.len() == 4 && "right"@.len() == 5 && "center"@.len() == 6 && "centre"@.len() == 6);
    assert("top"@.len() == 3 && "bottom"@.len() == 6);
    assert("center"@[4] != "centre"@[4]);
    assert("center"@[0] != "bottom"@[0]);
    assert("centre"@[0] != "bottom"@[0]);
}

fn h_align_exec(word: &str) -> (r: Option<HAlign>)
    ensures
        r == h_align(word@),
{
    let w = str_chars(to_lowercase(word).as_str());
    if chars_eq(w.as_slice(), str_chars("left").as_slice()) {
        Some(HAlign::Left)
    } else if chars_eq(w.as_slice(), str_chars("center").as_slice()) || chars_eq(w.as_slice(), str_chars("centre").as_slice()) {
        Some(HAlign::Center)
    } else if chars_eq(w.as_slice(), str_chars("right").as_slice()) {
        Some(HAlign::Right)
    } else {
        None
    }
}

fn v_align_exec(word: &str) -> (r: Option<VAlign>)
    ensures
        r == v_align(word@),
{
    let w = str_chars(to_lowercase(word).as_str());
    if chars_eq(w.as_slice(), str_chars("top").as_slice()) {
        Some(VAlign::Top)
    } else if chars_eq(w.as_slice(), str_chars("center").as_slice()) || chars_eq(w.as_slice(), str_chars("centre").as_slice()) {
        Some(VAlign::Center)
    } else if chars_eq(w.as_slice(), str_chars("bottom").as_slice()) {
        Some(VAlign::Bottom)
    } else {
        None
    }
}

/// The style changes for a range (the font size, a float, is the caller's).
pub struct StylePlan {
    pub sheet_index: usize,
    pub bold: Option<bool>,
    pub font_name: Option<String>,
    pub font_argb: Option<String>,
    pub fill_argb: Option<String>,
    pub align_h: Option<HAlign>,
    pub align_v: Option<VAlign>,
    pub border: bool,
    /// The cells to style, as column and row numbers from 1, row by row.
    pub cells: Vec<(u32, u32)>,
    pub message: String,
}

pub open spec fn opt_color(o: Option<&str>) -> Option<Seq<char>> {
    match o {
        Some(c) => Some(hex_color(c@)),
        None => None,
    }
}

pub open spec fn opt_string(o: Option<String>) -> Option<Seq<char>> {
    match o {
        Some(s) => Some(s@),
        None => None,
    }
}

/// The cells of row `row` (from 0) in the columns `c1..c` (from 0), as
/// column and row numbers from 1.
pub open spec fn row_cells(row: int, c1: int, c: int) -> Seq<(u32, u32)>
    decreases c - c1,
{
    if c <= c1 {
        Seq::empty()
    } else {
        row_cells(row, c1, c - 1).push(((c - 1 + 1) as u32, (row + 1) as u32))
    }
}

/// The cells of rows `r1..r` and columns `c1..=c2` (from 0), row by row.
pub open spec fn rect_cells(r1: int, r: int, c1: int, c2: int) -> Seq<(u32, u32)>
    decreases r - r1,
{
    if r <= r1 {
        Seq::empty()
    } else {
        rect_cells(r1, r - 1, c1, c2) + row_cells(r - 1, c1, c2 + 1)
    }
}

/// Every cell of a range (first row, first column, last row, last column,
/// from 0) has its column and row number, from 1, in a `u32`.
pub open spec fn rect_fits(t: (int, int, int, int)) -> bool {
    t.2 + 1 <= u32::MAX && t.3 + 1 <= u32::MAX
}

fn rect_cells_exec(r1: usize, c1: usize, r2: usize, c2: usize) -> (v: Vec<(u32, u32)>)
    requires
        r1 <= r2,
        c1 <= c2,
        r2 + 1 <= u32::MAX,
        c2 + 1 <= u32::MAX,
    ensures
        v@ == rect_cells(r1 as int, r2 + 1, c1 as int, c2 as int),
{
    let mut v: Vec<(u32, u32)> = Vec::new();
    let mut r = r1;
    while r <= r2
        invariant
            r1 <= r <= r2 + 1,
            c1 <= c2,
            r2 + 1 <= u32::MAX,
            c2 + 1 <= u32::MAX,
            v@ == rect_cells(r1 as int, r as int, c1 as int, c2 as int),
        decreases r2 + 1 - r,
    {
        let ghost before = v@;
        let mut c = c1;
        while c <= c2
            invariant
                r1 <= r <= r2,
                c1 <= c <= c2 + 1,
                r2 + 1 <= u32::MAX,
                c2 + 1 <= u32::MAX,
                v@ == before + row_cells(r as int, c1 as int, c as int),
            decreases c2 + 1 - c,
        {
            v.push(((c + 1) as u32, (r + 1) as u32));
            c += 1;
        }
        r += 1;
    }
    v
}

fn bad_coordinate(coord: &str) -> (e: AppError)
    ensures
        e matches AppError::InvalidCoordinate(m) && m@ == "无效的坐标或范围格式: "@ + coord@,
{
    let mut m = "无效的坐标或范围格式: ".to_owned();
    push_str(&mut m, coord);
    AppError::InvalidCoordinate(m)
}

/// Decides the style changes for `range_coord`: colours become ARGB text,
/// alignment words become alignments (unknown words change nothing), and a
/// border is drawn only when asked for with `true`; the style goes to every
/// cell of the range, row by row.
pub fn style_range(
    sheets: &Vec<SheetInfo>,
    sheet_name: Option<&str>,
    range_coord: &str,
    bold: Option<bool>,
    font_name: Option<&str>,
    font_color: Option<&str>,
    bg_color: Option<&str>,
    align_h: Option<&str>,
    align_v: Option<&str>,
    border: Option<bool>,
) -> (r: Result<StylePlan, AppError>)
    requires
        range_cols_fit(range_coord@),
    ensures
        sheet_choice(sheets@, opt_name(sheet_name)) is None ==> (r matches Err(e) && sheet_error(opt_name(sheet_name), e)),
        sheet_choice(sheets@, opt_name(sheet_name)) is Some && !(range_spec(range_coord@) matches Some(t) && rect_fits(t))
            ==> (r matches Err(AppError::InvalidCoordinate(m)) && m@ == "无效的坐标或范围格式: "@ + range_coord@),
        sheet_choice(sheets@, opt_name(sheet_name)) matches Some(i) ==> range_spec(range_coord@) matches Some(t) ==> rect_fits(t)
            ==> (r matches Ok(p) && p.sheet_index == i
            && p.cells@ == rect_cells(t.0, t.2 + 1, t.1, t.3)
            && p.bold == bold && opt_string(p.font_name) == opt_name(font_name)
            && opt_string(p.font_argb) == opt_color(font_color) && opt_string(p.fill_argb) == opt_color(bg_color)
            && p.align_h == (match align_h { Some(h) => h_align(h@), None => None })
            && p.align_v == (match align_v { Some(v) => v_align(v@), None => None })
            && p.border == (border == Some(true))
            && p.message@ == "区域 "@ + range_coord@ + " 样式应用成功"@),
{
    let idx = resolve_sheet(sheets, sheet_name)?;
    let cells = match parse_range_str(range_coord) {
        Some((r1, c1, r2, c2)) => {
            if r2 >= u32::MAX as usize || c2 >= u32::MAX as usize {
                return Err(bad_coordinate(range_coord));
            }
            rect_cells_exec(r1, c1, r2, c2)
        },
        None => return Err(bad_coordinate(range_coord)),
    };
    let mut msg = "区域 ".to_owned();
    push_str(&mut msg, range_coord);
    push_str(&mut msg, " 样式应用成功");
    Ok(StylePlan {
        cells,
        sheet_index: idx,
        bold,
        font_name: match font_name { Some(n) => Some(n.to_owned()), None => None },
        font_argb: match font_color { Some(c) => Some(parse_hex_color(c)), None => None },
        fill_argb: match bg_color { Some(c) => Some(parse_hex_color(c)), None => None },
        align_h: match align_h { Some(h) => h_align_exec(h), None => None },
        align_v: match align_v { Some(v) => v_align_exec(v), None => None },
        border: match border { Some(b) => b, None => false },
        message: msg,
    })
}

/// Column numbers and column letters are inverse: the letters of column
/// `n` (from 1) are upper-case `A` to `Z` and count back to `n`.
pub proof fn law_column_letters_round_trip(n: nat)
    ensures
        forall|i: int| 0 <= i < col_letters(n).len() ==> 'A' <= #[trigger] col_letters(n)[i] && col_letters(n)[i] <= 'Z',
        letters_value(col_letters(n)) == n,
    decreases n,
{
    if n > 0 {
        let q = ((n - 1) / 26) as nat;
        let r = (n - 1) % 26;
        assert(q < n) by (nonlinear_arith)
            requires
                n > 0,
                q == (n - 1) / 26,
        ;
        law_column_letters_round_trip(q);
        let c = (65 + r) as char;
        assert(col_letters(n) == col_letters(q).push(c));
        assert(col_letters(n).drop_last() == col_letters(q));
        assert(c as u32 == 65 + r);
        assert(q * 26 + r == n - 1) by (nonlinear_arith)
            requires
                q == (n - 1) / 26,
                r == (n - 1) % 26,
                n > 0,
        ;
        assert forall|i: int| 0 <= i < col_letters(n).len() implies 'A' <= #[trigger] col_letters(n)[i] && col_letters(n)[i] <= 'Z' by {
            if i < col_letters(q).len() {
                assert(col_letters(n)[i] == col_letters(q)[i]);
            }
        }
    }
}

/// A colour may be written with or without a leading `#`: both give the
/// same ARGB text.
pub proof fn law_hash_prefix_is_ignored(s: Seq<char>)
    ensures
        hex_color(seq!['#'] + s) == hex_color(s),
{
    let h = seq!['#'] + s;
    assert(h.len() > 0 && h[0] == '#');
    assert(h.skip(1) == s);
    assert(strip_leading(h, '#') == strip_leading(s, '#'));
}

proof fn lemma_strip_leading_stops(s: Seq<char>, c: char)
    ensures
        strip_leading(s, c).len() == 0 || strip_leading(s, c)[0] != c,
    decreases s.len(),
{
    if s.len() > 0 && s[0] == c {
        lemma_strip_leading_stops(s.skip(1), c);
    }
}

proof fn lemma_upper_keeps_utf8_len(s: Seq<char>)
    ensures
        encode_utf8(s.map_values(|c: char| ascii_upper(c))).len() == encode_utf8(s).len(),
    decreases s.len(),
{
    if s.len() > 0 {
        let u = s.map_values(|c: char| ascii_upper(c));
        assert(u.drop_first() == s.drop_first().map_values(|c: char| ascii_upper(c)));
        lemma_upper_keeps_utf8_len(s.drop_first());
        assert(encode_scalar(u[0] as u32).len() == encode_scalar(s[0] as u32).len());
    }
}

/// Normalising a colour twice gives what normalising it once gave.
pub proof fn law_hex_color_idempotent(s: Seq<char>)
    ensures
        hex_color(hex_color(s)) == hex_color(s),
{
    let clean = strip_leading(s, '#');
    let up = clean.map_values(|c: char| ascii_upper(c));
    lemma_strip_leading_stops(s, '#');
    lemma_upper_keeps_utf8_len(clean);
    assert(up.map_values(|c: char| ascii_upper(c)) == up);
    if encode_utf8(clean).len() == 6 {
        reveal_strlit("FF");
        let h = "FF"@ + up;
        assert(h[0] == 'F');
        assert(strip_leading(h, '#') == h);
        assert(h.drop_first()[0] == 'F');
        assert(h.drop_first().drop_first() == up);
        assert(encode_scalar('F' as u32).len() == 1);
        assert(encode_utf8(h.drop_first()).len() == 1 + encode_utf8(up).len());
        assert(encode_utf8(h).len() == 8);
        assert(h.map_values(|c: char| ascii_upper(c)) == h);
    } else {
        if up.len() > 0 {
            assert(up[0] != '#');
        }
        assert(strip_leading(up, '#') == up);
    }
}

} // verus!
