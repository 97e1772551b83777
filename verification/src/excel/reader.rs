use vstd::prelude::*;

use crate::excel::error::AppError;
use crate::excel::formatter::letters_value;
use crate::excel::writer::{col_letters, col_to_letter, opt_name};
use crate::num::{all_digits, digits_val, parse_bounded};
use crate::text::{
    ascii_upper, contains_chars, decimal, occurs_at, push_decimal, push_str, str_chars, string_from_chars,
    strings_view,
};

verus! {

/// Size of one worksheet.
pub struct SheetMeta {
    pub name: String,
    pub rows: usize,
    pub cols: usize,
}

/// What an inspection reports: every sheet with its size, or one sheet
/// with its size and used range.
pub struct InspectData {
    pub file: String,
    pub total_sheets: Option<usize>,
    pub sheets: Option<Vec<SheetMeta>>,
    pub target_sheet: Option<String>,
    pub rows: Option<usize>,
    pub cols: Option<usize>,
    pub range: Option<String>,
}

/// One cell that holds the keyword: its sheet, row and column (from 1), its
/// text and the text of its whole row.
pub struct SearchHit {
    pub sheet: String,
    pub row: usize,
    pub col: usize,
    pub matched_value: String,
    pub row_data: Vec<String>,
}

/// Cells read from a sheet, as text, row by row.
pub struct ReadData {
    pub sheet: String,
    pub total_rows: usize,
    pub total_cols: usize,
    pub rows: Vec<Vec<String>>,
}

/// The outcome of a CSV export.
pub struct ConvertData {
    pub input_file: String,
    pub output_file: String,
    pub exported_sheet: String,
    pub total_rows: usize,
}

/// A path with quotes, apostrophes and spaces taken off both ends.
pub open spec fn is_path_junk(c: char) -> bool {
    c == '"' || c == '\'' || c == ' '
}

pub open spec fn strip_junk_front(s: Seq<char>) -> Seq<char>
    decreases s.len(),
{
    if s.len() > 0 && is_path_junk(s[0]) {
        strip_junk_front(s.skip(1))
    } else {
        s
    }
}

pub open spec fn strip_junk_back(s: Seq<char>) -> Seq<char>
    decreases s.len(),
{
    if s.len() > 0 && is_path_junk(s.last()) {
        strip_junk_back(s.drop_last())
    } else {
        s
    }
}

/// `str::trim_matches` with quotes, apostrophes and spaces.
pub open spec fn clean_path_spec(s: Seq<char>) -> Seq<char> {
    strip_junk_back(strip_junk_front(s))
}

/// Takes quotes, apostrophes and spaces off both ends of a path.
pub fn clean_path(path: &str) -> (r: String)
    ensures
        r@ == clean_path_spec(path@),
{
    let v = str_chars(path);
    let mut i: usize = 0;
    assert(v@.skip(0) == v@);
    while i < v.len() && (v[i] == '"' || v[i] == '\'' || v[i] == ' ')
        invariant
            i <= v.len(),
            strip_junk_front(v@) == strip_junk_front(v@.skip(i as int)),
        decreases v.len() - i,
    {
        assert(v@.skip(i as int).skip(1) == v@.skip(i + 1));
        i += 1;
    }
    let mut j = v.len();
    assert(v@.skip(i as int).take(j - i) == v@.skip(i as int));
    while j > i && (v[j - 1] == '"' || v[j - 1] == '\'' || v[j - 1] == ' ')
        invariant
            i <= j <= v.len(),
            strip_junk_back(strip_junk_front(v@)) == strip_junk_back(v@.skip(i as int).take(j - i)),
        decreases j,
    {
        assert(v@.skip(i as int).take(j - i).drop_last() == v@.skip(i as int).take(j - 1 - i));
        j -= 1;
    }
    let mut out: Vec<char> = Vec::new();
    let mut k = i;
    while k < j
        invariant
            i <= k <= j <= v.len(),
            out@ == v@.subrange(i as int, k as int),
        decreases j - k,
    {
        out.push(v[k]);
        k += 1;
    }
    assert(out@ == v@.skip(i as int).take(j - i));
    string_from_chars(out.as_slice())
}

pub open spec fn is_ascii_alpha(c: char) -> bool {
    ('A' <= c && c <= 'Z') || ('a' <= c && c <= 'z')
}

pub open spec fn is_ascii_digit(c: char) -> bool {
    '0' <= c && c <= '9'
}

/// The end of the run of ASCII letters from `i`.
pub open spec fn alpha_end(s: Seq<char>, i: int) -> int
    decreases s.len() - i,
{
    if 0 <= i < s.len() && is_ascii_alpha(s[i]) {
        alpha_end(s, i + 1)
    } else {
        i
    }
}

/// The end of the run of ASCII digits from `i`.
pub open spec fn digit_end(s: Seq<char>, i: int) -> int
    decreases s.len() - i,
{
    if 0 <= i < s.len() && is_ascii_digit(s[i]) {
        digit_end(s, i + 1)
    } else {
        i
    }
}

/// A cell reference from `i`: column letters then row digits, as the column
/// number, the row number and the end of the reference.
pub open spec fn cell_ref(s: Seq<char>, i: int) -> Option<(int, nat, int)> {
    let a = alpha_end(s, i);
    let d = digit_end(s, a);
    if a > i && d > a {
        Some((letters_value(s.subrange(i, a).map_values(|c: char| ascii_upper(c))), digits_val(s.subrange(a, d), 10), d))
    } else {
        None
    }
}

/// The column numbers of a range text fit in a `usize`.
pub open spec fn range_cols_fit(s: Seq<char>) -> bool {
    match cell_ref(s, 0) {
        Some(x) => x.0 <= usize::MAX && (x.2 < s.len() && s[x.2] == ':' ==> match cell_ref(s, x.2 + 1) {
            Some(y) => y.0 <= usize::MAX,
            None => true,
        }),
        None => true,
    }
}

pub open spec fn sat_dec(n: int) -> int {
    if n > 0 { n - 1 } else { 0 }
}

pub open spec fn min_int(a: int, b: int) -> int {
    if a <= b { a } else { b }
}

pub open spec fn max_int(a: int, b: int) -> int {
    if a >= b { a } else { b }
}

/// A range such as `B2` or `A1:D10` as first row, first column, last row,
/// last column, counted from 0 (ends in either order); nothing for other
/// text or a row number beyond `usize`.
pub open spec fn range_spec(s: Seq<char>) -> Option<(int, int, int, int)> {
    match cell_ref(s, 0) {
        None => None,
        Some((c1, r1, e1)) => {
            if r1 > usize::MAX {
                None
            } else if e1 == s.len() {
                Some((sat_dec(r1 as int), sat_dec(c1), sat_dec(r1 as int), sat_dec(c1)))
            } else if s[e1] == ':' {
                match cell_ref(s, e1 + 1) {
                    Some((c2, r2, e2)) => {
                        if e2 == s.len() && r2 <= usize::MAX {
                            let (a, b, c, d) = (sat_dec(r1 as int), sat_dec(c1), sat_dec(r2 as int), sat_dec(c2));
                            Some((min_int(a, c), min_int(b, d), max_int(a, c), max_int(b, d)))
                        } else {
                            None
                        }
                    },
                    None => None,
                }
            } else {
                None
            }
        },
    }
}

fn alpha_end_exec(s: &[char], i: usize) -> (e: usize)
    requires
        i <= s.len(),
    ensures
        e as int == alpha_end(s@, i as int),
        i <= e <= s.len(),
        forall|k: int| i <= k < e ==> is_ascii_alpha(#[trigger] s@[k]),
{
    let mut e = i;
    while e < s.len() && (('A' <= s[e] && s[e] <= 'Z') || ('a' <= s[e] && s[e] <= 'z'))
        invariant
            i <= e <= s.len(),
            alpha_end(s@, i as int) == alpha_end(s@, e as int),
            forall|k: int| i <= k < e ==> is_ascii_alpha(#[trigger] s@[k]),
        decreases s.len() - e,
    {
        e += 1;
    }
    e
}

fn digit_end_exec(s: &[char], i: usize) -> (e: usize)
    requires
        i <= s.len(),
    ensures
        e as int == digit_end(s@, i as int),
        i <= e <= s.len(),
        forall|k: int| i <= k < e ==> is_ascii_digit(#[trigger] s@[k]),
{
    let mut e = i;
    while e < s.len() && '0' <= s[e] && s[e] <= '9'
        invariant
            i <= e <= s.len(),
            digit_end(s@, i as int) == digit_end(s@, e as int),
            forall|k: int| i <= k < e ==> is_ascii_digit(#[trigger] s@[k]),
        decreases s.len() - e,
    {
        e += 1;
    }
    e
}

proof fn lemma_upper_letters(t: Seq<char>, k: int)
    requires
        forall|j: int| 0 <= j < t.len() ==> is_ascii_alpha(#[trigger] t[j]),
        0 <= k <= t.len(),
    ensures
        letters_value(t.take(k).map_values(|c: char| ascii_upper(c))) >= 0,
        letters_value(t.take(k).map_values(|c: char| ascii_upper(c)))
            <= letters_value(t.map_values(|c: char| ascii_upper(c))),
    decreases t.len() - k,
{
    let u = t.map_values(|c: char| ascii_upper(c));
    assert(t.take(k).map_values(|c: char| ascii_upper(c)) == u.take(k));
    assert forall|j: int| 0 <= j < u.len() implies (#[trigger] u[j]) as u32 >= 65 by {
        assert(is_ascii_alpha(t[j]));
    }
    lemma_letters_bounds(u, k);
}

proof fn lemma_letters_bounds(u: Seq<char>, k: int)
    requires
        forall|j: int| 0 <= j < u.len() ==> (#[trigger] u[j]) as u32 >= 65,
        0 <= k <= u.len(),
    ensures
        0 <= letters_value(u.take(k)) <= letters_value(u),
    decreases u.len(),
{
    if k == u.len() {
        assert(u.take(k) == u);
        lemma_letters_nonneg2(u);
    } else {
        let d = u.drop_last();
        assert(d.take(k) == u.take(k));
        lemma_letters_bounds(d, k);
        let v = letters_value(d);
        assert(v <= v * 26 + (u.last() as u32 - 64)) by (nonlinear_arith)
            requires
                v >= 0,
                u.last() as u32 >= 65,
        ;
    }
}

proof fn lemma_letters_nonneg2(u: Seq<char>)
    requires
        forall|j: int| 0 <= j < u.len() ==> (#[trigger] u[j]) as u32 >= 65,
    ensures
        letters_value(u) >= 0,
    decreases u.len(),
{
    if u.len() > 0 {
        lemma_letters_nonneg2(u.drop_last());
        let v = letters_value(u.drop_last());
        assert(v * 26 >= 0) by (nonlinear_arith)
            requires
                v >= 0,
        ;
    }
}

/// The column number of the ASCII letters `s[i..e]`, which must fit.
fn letters_at(s: &[char], i: usize, e: usize) -> (n: usize)
    requires
        i <= e <= s.len(),
        forall|k: int| i <= k < e ==> is_ascii_alpha(#[trigger] s@[k]),
        letters_value(s@.subrange(i as int, e as int).map_values(|c: char| ascii_upper(c))) <= usize::MAX,
    ensures
        n as int == letters_value(s@.subrange(i as int, e as int).map_values(|c: char| ascii_upper(c))),
{
    let ghost t = s@.subrange(i as int, e as int);
    let mut acc: usize = 0;
    let mut k = i;
    assert(t.take(0).map_values(|c: char| ascii_upper(c)) == Seq::<char>::empty());
    while k < e
        invariant
            i <= k <= e <= s.len(),
            t == s@.subrange(i as int, e as int),
            forall|j: int| 0 <= j < t.len() ==> is_ascii_alpha(#[trigger] t[j]),
            letters_value(t.map_values(|c: char| ascii_upper(c))) <= usize::MAX,
            acc as int == letters_value(t.take(k - i).map_values(|c: char| ascii_upper(c))),
        decreases e - k,
    {
        let c = crate::text::to_ascii_upper(s[k]);
        proof {
            lemma_upper_letters(t, k - i + 1);
            let u1 = t.take(k - i + 1).map_values(|c: char| ascii_upper(c));
            assert(u1.drop_last() == t.take(k - i).map_values(|c: char| ascii_upper(c)));
            assert(u1.last() == c);
        }
        acc = acc * 26 + (c as usize - 65 + 1);
        k += 1;
    }
    assert(t.take(e - i) == t);
    acc
}

/// The column number of the ASCII letters `s[i..e]`, or nothing when it
/// does not fit in a `usize`.
fn letters_at_checked(s: &[char], i: usize, e: usize) -> (r: Option<usize>)
    requires
        i <= e <= s.len(),
        forall|k: int| i <= k < e ==> is_ascii_alpha(#[trigger] s@[k]),
    ensures
        r matches Some(n) ==> n as int == letters_value(s@.subrange(i as int, e as int).map_values(|c: char| ascii_upper(c))),
        r is None ==> letters_value(s@.subrange(i as int, e as int).map_values(|c: char| ascii_upper(c))) > usize::MAX,
{
    let ghost t = s@.subrange(i as int, e as int);
    let mut acc: u128 = 0;
    let mut k = i;
    assert(t.take(0).map_values(|c: char| ascii_upper(c)) == Seq::<char>::empty());
    while k < e
        invariant
            i <= k <= e <= s.len(),
            t == s@.subrange(i as int, e as int),
            forall|j: int| 0 <= j < t.len() ==> is_ascii_alpha(#[trigger] t[j]),
            acc as int == letters_value(t.take(k - i).map_values(|c: char| ascii_upper(c))),
            acc <= usize::MAX,
        decreases e - k,
    {
        let c = crate::text::to_ascii_upper(s[k]);
        proof {
            lemma_upper_letters(t, k - i + 1);
            let u1 = t.take(k - i + 1).map_values(|c: char| ascii_upper(c));
            assert(u1.drop_last() == t.take(k - i).map_values(|c: char| ascii_upper(c)));
            assert(u1.last() == c);
        }
        assert(acc * 26 <= 26 * 0xFFFF_FFFF_FFFF_FFFFu128) by (nonlinear_arith)
            requires
                acc <= 0xFFFF_FFFF_FFFF_FFFFu128,
        ;
        acc = acc * 26 + (c as u128 - 65 + 1);
        if acc > usize::MAX as u128 {
            proof {
                lemma_upper_letters(t, t.len() as int);
                assert(t.take(t.len() as int) == t);
            }
            return None;
        }
        k += 1;
    }
    assert(t.take(e - i) == t);
    Some(acc as usize)
}

/// Whether the column letters of a range text fit in a `usize`.
pub fn range_fits(s: &str) -> (b: bool)
    ensures
        b == range_cols_fit(s@),
{
    let v = str_chars(s);
    let a1 = alpha_end_exec(v.as_slice(), 0);
    let d1 = digit_end_exec(v.as_slice(), a1);
    if !(a1 > 0 && d1 > a1) {
        return true;
    }
    if letters_at_checked(v.as_slice(), 0, a1).is_none() {
        return false;
    }
    if !(d1 < v.len() && v[d1] == ':') {
        return true;
    }
    let a2 = alpha_end_exec(v.as_slice(), d1 + 1);
    let d2 = digit_end_exec(v.as_slice(), a2);
    if !(a2 > d1 + 1 && d2 > a2) {
        return true;
    }
    letters_at_checked(v.as_slice(), d1 + 1, a2).is_some()
}

/// Parses a range such as `B2` or `A1:D10` into first row, first column,
/// last row and last column, counted from 0.
pub fn parse_range_str(s: &str) -> (r: Option<(usize, usize, usize, usize)>)
    requires
        range_cols_fit(s@),
    ensures
        r matches Some(t) ==> range_spec(s@) == Some((t.0 as int, t.1 as int, t.2 as int, t.3 as int)),
        r is None ==> range_spec(s@) is None,
{
    let v = str_chars(s);
    let a1 = alpha_end_exec(v.as_slice(), 0);
    let d1 = digit_end_exec(v.as_slice(), a1);
    if !(a1 > 0 && d1 > a1) {
        return None;
    }
    let c1 = letters_at(v.as_slice(), 0, a1);
    let digits1 = crate::pdf::pages::sub_chars(v.as_slice(), a1, d1);
    let r1 = match crate::num::parse_unsigned_chars(digits1.as_slice(), 10, usize::MAX as u64) {
        Some(x) => x as usize,
        None => {
            proof {
                assert(all_digits(digits1@, 10));
                assert(digits1@.len() > 0);
            }
            return None;
        },
    };
    let r1d: usize = if r1 > 0 { r1 - 1 } else { 0 };
    let c1d: usize = if c1 > 0 { c1 - 1 } else { 0 };
    if d1 == v.len() {
        return Some((r1d, c1d, r1d, c1d));
    }
    if v[d1] != ':' {
        return None;
    }
    let a2 = alpha_end_exec(v.as_slice(), d1 + 1);
    let d2 = digit_end_exec(v.as_slice(), a2);
    if !(a2 > d1 + 1 && d2 > a2) {
        return None;
    }
    let c2 = letters_at(v.as_slice(), d1 + 1, a2);
    let digits2 = crate::pdf::pages::sub_chars(v.as_slice(), a2, d2);
    let r2 = match crate::num::parse_unsigned_chars(digits2.as_slice(), 10, usize::MAX as u64) {
        Some(x) => x as usize,
        None => {
            proof {
                assert(all_digits(digits2@, 10));
            }
            return None;
        },
    };
    if d2 != v.len() {
        return None;
    }
    let r2d: usize = if r2 > 0 { r2 - 1 } else { 0 };
    let c2d: usize = if c2 > 0 { c2 - 1 } else { 0 };
    Some((
        if r1d <= r2d { r1d } else { r2d },
        if c1d <= c2d { c1d } else { c2d },
        if r1d >= r2d { r1d } else { r2d },
        if c1d >= c2d { c1d } else { c2d },
    ))
}

/// The text of a sheet's cells, row by row.
pub open spec fn grid_view(rows: Seq<Vec<String>>) -> Seq<Seq<Seq<char>>> {
    rows.map_values(|r: Vec<String>| strings_view(r@))
}

/// The rows `r1..=r2` (cut at the last row) and, in each, the columns
/// `c1..=c2` (cut at the row's end; nothing when the row ends before `c1`).
pub open spec fn slice_grid(g: Seq<Seq<Seq<char>>>, r1: int, c1: int, r2: int, c2: int) -> Seq<Seq<Seq<char>>> {
    let hi = min_int(r2, g.len() - 1);
    if r1 > hi {
        Seq::empty()
    } else {
        Seq::new((hi - r1 + 1) as nat, |k: int| {
            let row = g[r1 + k];
            if c1 < row.len() {
                row.subrange(c1, min_int(c2 + 1, row.len() as int))
            } else {
                Seq::empty()
            }
        })
    }
}

/// At most the first `n` rows when a limit is given.
pub open spec fn head_rows(g: Seq<Seq<Seq<char>>>, head: Option<usize>) -> Seq<Seq<Seq<char>>> {
    match head {
        Some(n) => if n < g.len() {
            g.take(n as int)
        } else {
            g
        },
        None => g,
    }
}

fn copy_cells(row: &Vec<String>, lo: usize, hi: usize) -> (r: Vec<String>)
    requires
        lo <= hi <= row.len(),
    ensures
        strings_view(r@) == strings_view(row@).subrange(lo as int, hi as int),
{
    let mut r: Vec<String> = Vec::new();
    let mut i = lo;
    while i < hi
        invariant
            lo <= i <= hi <= row.len(),
            strings_view(r@) == strings_view(row@).subrange(lo as int, i as int),
        decreases hi - i,
    {
        let ghost before = strings_view(r@);
        r.push(row[i].clone());
        assert(strings_view(r@) == before.push(row@[i as int]@));
        assert(strings_view(row@).subrange(lo as int, i + 1) == strings_view(row@).subrange(lo as int, i as int).push(row@[i as int]@));
        i += 1;
    }
    r
}

/// Cuts the rows and columns of a range out of a sheet's cells.
pub fn slice_rows(rows: &Vec<Vec<String>>, r1: usize, c1: usize, r2: usize, c2: usize) -> (r: Vec<Vec<String>>)
    requires
        rows.len() > 0,
        c1 <= c2 < usize::MAX,
    ensures
        grid_view(r@) == slice_grid(grid_view(rows@), r1 as int, c1 as int, r2 as int, c2 as int),
{
    let ghost g = grid_view(rows@);
    let hi = if r2 < rows.len() - 1 { r2 } else { rows.len() - 1 };
    let mut out: Vec<Vec<String>> = Vec::new();
    if r1 > hi {
        assert(grid_view(out@) =~= slice_grid(g, r1 as int, c1 as int, r2 as int, c2 as int));
        return out;
    }
    let mut r = r1;
    while r <= hi
        invariant
            r1 <= r <= hi + 1,
            hi < rows.len(),
            hi as int == min_int(r2 as int, rows.len() - 1),
            c1 <= c2 < usize::MAX,
            g == grid_view(rows@),
            grid_view(out@) == slice_grid(g, r1 as int, c1 as int, r2 as int, c2 as int).take(r - r1),
        decreases hi + 1 - r,
    {
        let row = &rows[r];
        let piece = if c1 < row.len() {
            let end = if c2 + 1 < row.len() { c2 + 1 } else { row.len() };
            copy_cells(row, c1, end)
        } else {
            Vec::new()
        };
        let ghost before = grid_view(out@);
        let ghost sg = slice_grid(g, r1 as int, c1 as int, r2 as int, c2 as int);
        assert(g[r as int] == strings_view(rows@[r as int]@));
        assert(sg[r - r1] == strings_view(piece@));
        out.push(piece);
        assert(grid_view(out@) == before.push(sg[r - r1]));
        assert(sg.take(r + 1 - r1) == sg.take(r - r1).push(sg[r - r1]));
        r += 1;
    }
    assert(slice_grid(g, r1 as int, c1 as int, r2 as int, c2 as int).take(hi + 1 - r1)
        == slice_grid(g, r1 as int, c1 as int, r2 as int, c2 as int));
    out
}

/// A used range placed on its sheet: `r0` empty rows above it and `c0`
/// empty cells in front of each of its rows, so that rows and columns count
/// from `A1`.
pub open spec fn placed_grid(g: Seq<Seq<Seq<char>>>, r0: nat, c0: nat) -> Seq<Seq<Seq<char>>> {
    Seq::new(r0, |_i: int| Seq::<Seq<char>>::empty()) + g.map_values(|row: Seq<Seq<char>>| Seq::new(c0, |_j: int| Seq::<char>::empty()) + row)
}

/// Places the rows of a used range whose top-left cell is row `r0`, column
/// `c0` (from 0) at their position on the sheet (see `placed_grid`).
pub fn place_rows(rows: &Vec<Vec<String>>, r0: usize, c0: usize) -> (r: Vec<Vec<String>>)
    ensures
        grid_view(r@) == placed_grid(grid_view(rows@), r0 as nat, c0 as nat),
{
    let ghost g = grid_view(rows@);
    let ghost top = Seq::new(r0 as nat, |_i: int| Seq::<Seq<char>>::empty());
    let ghost pad = Seq::new(c0 as nat, |_j: int| Seq::<char>::empty());
    let mut out: Vec<Vec<String>> = Vec::new();
    let mut i: usize = 0;
    while i < r0
        invariant
            i <= r0,
            top == Seq::new(r0 as nat, |_i: int| Seq::<Seq<char>>::empty()),
            grid_view(out@) == top.take(i as int),
        decreases r0 - i,
    {
        let ghost before = grid_view(out@);
        let e: Vec<String> = Vec::new();
        assert(strings_view(e@) =~= Seq::<Seq<char>>::empty());
        out.push(e);
        assert(grid_view(out@) =~= before.push(Seq::<Seq<char>>::empty()));
        assert(top.take(i + 1) == top.take(i as int).push(Seq::<Seq<char>>::empty()));
        i += 1;
    }
    assert(top.take(r0 as int) == top);
    let mut j: usize = 0;
    while j < rows.len()
        invariant
            j <= rows.len(),
            g == grid_view(rows@),
            pad == Seq::new(c0 as nat, |_j: int| Seq::<char>::empty()),
            grid_view(out@) == top + g.take(j as int).map_values(|row: Seq<Seq<char>>| pad + row),
        decreases rows.len() - j,
    {
        let mut row: Vec<String> = Vec::new();
        let mut c: usize = 0;
        while c < c0
            invariant
                c <= c0,
                pad == Seq::new(c0 as nat, |_j: int| Seq::<char>::empty()),
                strings_view(row@) == pad.take(c as int),
            decreases c0 - c,
        {
            let ghost b = strings_view(row@);
            row.push(String::new());
            assert(strings_view(row@) == b.push(Seq::<char>::empty()));
            assert(pad.take(c + 1) == pad.take(c as int).push(Seq::<char>::empty()));
            c += 1;
        }
        assert(pad.take(c0 as int) == pad);
        let src = &rows[j];
        let mut k: usize = 0;
        while k < src.len()
            invariant
                k <= src.len(),
                strings_view(row@) == pad + strings_view(src@).take(k as int),
            decreases src.len() - k,
        {
            let ghost b = strings_view(row@);
            row.push(src[k].clone());
            assert(strings_view(row@) == b.push(src@[k as int]@));
            assert(strings_view(src@).take(k + 1) == strings_view(src@).take(k as int).push(src@[k as int]@));
            k += 1;
        }
        assert(strings_view(src@).take(src.len() as int) == strings_view(src@));
        assert(g[j as int] == strings_view(src@));
        let ghost before = grid_view(out@);
        out.push(row);
        assert(grid_view(out@) == before.push(pad + g[j as int]));
        assert(g.take(j + 1).map_values(|row: Seq<Seq<char>>| pad + row)
            == g.take(j as int).map_values(|row: Seq<Seq<char>>| pad + row).push(pad + g[j as int]));
        j += 1;
    }
    assert(g.take(rows.len() as int) == g);
    out
}

/// `r` reads a sheet's cells: all rows, or the rows and columns of the
/// range, then at most `head` rows; an unreadable range is an
/// `InvalidCoordinate` error; an empty sheet reads as nothing.
pub open spec fn read_ok(g: Seq<Seq<Seq<char>>>, range: Option<Seq<char>>, head: Option<usize>, d: ReadData) -> bool {
    let picked = match range {
        Some(s) => match range_spec(s) {
            Some((r1, c1, r2, c2)) => slice_grid(g, r1, c1, r2, c2),
            None => g,
        },
        None => g,
    };
    let rows = head_rows(picked, head);
    &&& grid_view(d.rows@) == rows
    &&& d.total_rows == rows.len()
    &&& d.total_cols == (if rows.len() > 0 { rows[0].len() } else { 0 })
}

/// The cells a read sees: a range counts from `A1`, so the used range is
/// placed at its position on the sheet; without a range, the used range as
/// it is.
pub open spec fn read_grid(g: Seq<Seq<Seq<char>>>, r0: usize, c0: usize, range: Option<Seq<char>>) -> Seq<Seq<Seq<char>>> {
    if range is Some {
        placed_grid(g, r0 as nat, c0 as nat)
    } else {
        g
    }
}

/// Reads the cells of a sheet (as text, row by row, from the caller: its
/// used range, whose top-left cell is row `origin_row`, column `origin_col`,
/// counted from 0), cut to a range such as `A1:D10` and to at most `head`
/// rows.
pub fn read_range(sheet: String, all_rows: Vec<Vec<String>>, origin_row: usize, origin_col: usize, range_str: Option<&str>, head: Option<usize>)
    -> (r: Result<ReadData, AppError>)
    requires
        all_rows.len() > 0 && range_str is Some ==> range_cols_fit(range_str.unwrap()@),
    ensures
        all_rows.len() == 0 ==> (r matches Ok(d) && d.sheet@ == sheet@ && d.total_rows == 0 && d.total_cols == 0 && d.rows@.len() == 0),
        all_rows.len() > 0 ==> match range_str {
            Some(s) if range_spec(s@) is None => r matches Err(AppError::InvalidCoordinate(m)) && m@ == "无效的范围坐标表达式: "@ + s@,
            _ => r matches Ok(d) && d.sheet@ == sheet@
                && read_ok(read_grid(grid_view(all_rows@), origin_row, origin_col, opt_name(range_str)), opt_name(range_str), head, d),
        },
{
    if all_rows.len() == 0 {
        return Ok(ReadData { sheet, total_rows: 0, total_cols: 0, rows: Vec::new() });
    }
    let ghost g0 = grid_view(all_rows@);
    let mut rows = if range_str.is_some() { place_rows(&all_rows, origin_row, origin_col) } else { all_rows };
    assert(grid_view(rows@).len() >= g0.len());
    match range_str {
        Some(coord) => match parse_range_str(coord) {
            Some((r1, c1, r2, c2)) => {
                proof {
                    lemma_range_cols(coord@);
                    assert(c1 <= c2);
                }
                rows = slice_rows(&rows, r1, c1, r2, c2);
            },
            None => {
                let mut msg = "无效的范围坐标表达式: ".to_owned();
                push_str(&mut msg, coord);
                return Err(AppError::InvalidCoordinate(msg));
            },
        },
        None => {},
    }
    let ghost picked = grid_view(rows@);
    match head {
        Some(n) => {
            if n < rows.len() {
                rows.truncate(n);
                assert(grid_view(rows@) == picked.take(n as int));
            }
        },
        None => {},
    }
    let total_rows = rows.len();
    let total_cols = if rows.len() > 0 { rows[0].len() } else { 0 };
    Ok(ReadData { sheet, total_rows, total_cols, rows })
}

/// A parsed range ends at a column below `usize::MAX`.
proof fn lemma_range_cols(s: Seq<char>)
    requires
        range_cols_fit(s),
        range_spec(s) is Some,
    ensures
        range_spec(s).unwrap().3 < usize::MAX,
        range_spec(s).unwrap().0 >= 0 && range_spec(s).unwrap().1 >= 0,
{
    let x = cell_ref(s, 0).unwrap();
    lemma_cell_ref_nonneg(s, 0);
    if x.2 < s.len() && s[x.2] == ':' {
        lemma_cell_ref_nonneg(s, x.2 + 1);
    }
}

proof fn lemma_cell_ref_nonneg(s: Seq<char>, i: int)
    requires
        0 <= i <= s.len(),
    ensures
        cell_ref(s, i) matches Some(x) ==> x.0 >= 0,
{
    if cell_ref(s, i) is Some {
        let a = alpha_end(s, i);
        lemma_alpha_run(s, i);
        let t = s.subrange(i, a);
        assert forall|j: int| 0 <= j < t.len() implies is_ascii_alpha(#[trigger] t[j]) by {
            assert(t[j] == s[i + j]);
        }
        lemma_upper_letters(t, t.len() as int);
        assert(t.take(t.len() as int) == t);
    }
}

proof fn lemma_alpha_run(s: Seq<char>, i: int)
    requires
        0 <= i <= s.len(),
    ensures
        i <= alpha_end(s, i) <= s.len(),
        forall|k: int| i <= k < alpha_end(s, i) ==> is_ascii_alpha(#[trigger] s[k]),
    decreases s.len() - i,
{
    if i < s.len() && is_ascii_alpha(s[i]) {
        lemma_alpha_run(s, i + 1);
    }
}

/// A search hit as plain values: sheet, row, column, cell text, row text.
pub type HitView = (Seq<char>, nat, nat, Seq<char>, Seq<Seq<char>>);

pub open spec fn hit_view(h: SearchHit) -> HitView {
    (h.sheet@, h.row as nat, h.col as nat, h.matched_value@, strings_view(h.row_data@))
}

pub open spec fn hits_view(v: Seq<SearchHit>) -> Seq<HitView> {
    v.map_values(|h: SearchHit| hit_view(h))
}

/// `str::contains`.
pub open spec fn text_contains(s: Seq<char>, kw: Seq<char>) -> bool {
    exists|i: int| occurs_at(s, kw, i)
}

/// The hits among the first `n` cells of row number `r` (from 0).
pub open spec fn row_hits(name: Seq<char>, r: nat, row: Seq<Seq<char>>, kw: Seq<char>, n: nat) -> Seq<HitView>
    decreases n,
{
    if n == 0 || n > row.len() {
        Seq::empty()
    } else {
        row_hits(name, r, row, kw, (n - 1) as nat) + if text_contains(row[n - 1], kw) {
            seq![(name, r + 1, n, row[n - 1], row)]
        } else {
            Seq::empty()
        }
    }
}

/// The hits among the first `m` rows of a sheet, row by row, left to right.
pub open spec fn grid_hits(name: Seq<char>, g: Seq<Seq<Seq<char>>>, kw: Seq<char>, m: nat) -> Seq<HitView>
    decreases m,
{
    if m == 0 || m > g.len() {
        Seq::empty()
    } else {
        grid_hits(name, g, kw, (m - 1) as nat) + row_hits(name, (m - 1) as nat, g[m - 1], kw, g[m - 1].len())
    }
}

pub open spec fn prefix_of<A>(x: Seq<A>, y: Seq<A>) -> bool {
    x.len() <= y.len() && y.take(x.len() as int) == x
}

proof fn lemma_prefix_trans<A>(x: Seq<A>, y: Seq<A>, z: Seq<A>)
    requires
        prefix_of(x, y),
        prefix_of(y, z),
    ensures
        prefix_of(x, z),
{
    assert(z.take(x.len() as int) == z.take(y.len() as int).take(x.len() as int));
}

proof fn lemma_prefix_append<A>(p: Seq<A>, x: Seq<A>, y: Seq<A>)
    requires
        prefix_of(x, y),
    ensures
        prefix_of(p + x, p + y),
{
    assert((p + y).take((p + x).len() as int) == p + y.take(x.len() as int));
}

proof fn lemma_row_prefix(name: Seq<char>, r: nat, row: Seq<Seq<char>>, kw: Seq<char>, a: nat, b: nat)
    requires
        a <= b <= row.len(),
    ensures
        prefix_of(row_hits(name, r, row, kw, a), row_hits(name, r, row, kw, b)),
    decreases b,
{
    if a < b {
        lemma_row_prefix(name, r, row, kw, a, (b - 1) as nat);
        let x = row_hits(name, r, row, kw, (b - 1) as nat);
        let y = row_hits(name, r, row, kw, b);
        assert(y.take(x.len() as int) == x);
        lemma_prefix_trans(row_hits(name, r, row, kw, a), x, y);
    } else {
        let x = row_hits(name, r, row, kw, a);
        assert(x.take(x.len() as int) == x);
    }
}

proof fn lemma_grid_prefix(name: Seq<char>, g: Seq<Seq<Seq<char>>>, kw: Seq<char>, a: nat, b: nat)
    requires
        a <= b <= g.len(),
    ensures
        prefix_of(grid_hits(name, g, kw, a), grid_hits(name, g, kw, b)),
    decreases b,
{
    if a < b {
        lemma_grid_prefix(name, g, kw, a, (b - 1) as nat);
        let x = grid_hits(name, g, kw, (b - 1) as nat);
        let y = grid_hits(name, g, kw, b);
        assert(y.take(x.len() as int) == x);
        lemma_prefix_trans(grid_hits(name, g, kw, a), x, y);
    } else {
        let x = grid_hits(name, g, kw, a);
        assert(x.take(x.len() as int) == x);
    }
}

/// The cells of one sheet as the caller read them (its used range, placed
/// by `origin` so that rows and columns count from `A1`); `None` when the
/// sheet could not be read.
pub struct SheetRows {
    pub name: String,
    pub rows: Option<Vec<Vec<String>>>,
    /// Row and column (from 0) of the top-left cell of the rows read.
    pub origin: (usize, usize),
}

/// A search over sheets from number `k` on, after the hits `acc`: every
/// cell that contains the keyword, sheet by sheet; with a `limit` above 0
/// the search stops at that many hits; a sheet that could not be read is an
/// error when one sheet was asked for and is skipped otherwise.
pub open spec fn search_fold(sheets: Seq<SheetRows>, k: int, kw: Seq<char>, one_sheet: bool, limit: nat, acc: Seq<HitView>)
    -> Option<Seq<HitView>>
    decreases sheets.len() - k,
{
    if k < 0 || k >= sheets.len() {
        Some(acc)
    } else {
        match sheets[k].rows {
            None => if one_sheet {
                None
            } else {
                search_fold(sheets, k + 1, kw, one_sheet, limit, acc)
            },
            Some(rows) => {
                let g = placed_grid(grid_view(rows@), sheets[k].origin.0 as nat, sheets[k].origin.1 as nat);
                let all = acc + grid_hits(sheets[k].name@, g, kw, g.len());
                if limit > 0 && all.len() >= limit {
                    Some(all.take(limit as int))
                } else {
                    search_fold(sheets, k + 1, kw, one_sheet, limit, all)
                }
            },
        }
    }
}

fn search_sheet(name: &String, rows: &Vec<Vec<String>>, kw: &[char], limit: usize, hits: &mut Vec<SearchHit>) -> (stopped: bool)
    requires
        limit > 0 ==> old(hits)@.len() < limit,
    ensures
        ({
            let g = grid_view(rows@);
            let all = hits_view(old(hits)@) + grid_hits(name@, g, kw@, g.len());
            if limit > 0 && all.len() >= limit {
                stopped && hits_view(final(hits)@) == all.take(limit as int)
            } else {
                !stopped && hits_view(final(hits)@) == all
            }
        }),
{
    let ghost g = grid_view(rows@);
    let ghost base = hits_view(hits@);
    let mut r: usize = 0;
    while r < rows.len()
        invariant
            r <= rows.len(),
            g == grid_view(rows@),
            hits_view(hits@) == base + grid_hits(name@, g, kw@, r as nat),
            limit > 0 ==> hits@.len() < limit,
            base == hits_view(old(hits)@),
        decreases rows.len() - r,
    {
        let row = &rows[r];
        let ghost rv = g[r as int];
        assert(rv == strings_view(row@));
        let mut c: usize = 0;
        while c < row.len()
            invariant
                r < rows.len(),
                c <= row.len(),
                row == &rows[r as int],
                g == grid_view(rows@),
                rv == g[r as int],
                rv == strings_view(row@),
                hits_view(hits@) == base + grid_hits(name@, g, kw@, r as nat) + row_hits(name@, r as nat, rv, kw@, c as nat),
                limit > 0 ==> hits@.len() < limit,
                base == hits_view(old(hits)@),
            decreases row.len() - c,
        {
            let cell = str_chars(row[c].as_str());
            let ghost before = hits_view(hits@);
            if contains_chars(cell.as_slice(), kw) {
                let hit = SearchHit {
                    sheet: name.clone(),
                    row: r + 1,
                    col: c + 1,
                    matched_value: row[c].clone(),
                    row_data: copy_cells(row, 0, row.len()),
                };
                hits.push(hit);
                assert(strings_view(row@).subrange(0, row.len() as int) == strings_view(row@));
                assert(hits_view(hits@) == before.push(hit_view(hit)));
                assert(text_contains(rv[c as int], kw@));
                assert(hits_view(hits@) == base + grid_hits(name@, g, kw@, r as nat) + row_hits(name@, r as nat, rv, kw@, (c + 1) as nat));
                if limit > 0 && hits.len() >= limit {
                    proof {
                        lemma_row_prefix(name@, r as nat, rv, kw@, (c + 1) as nat, rv.len());
                        lemma_prefix_append(grid_hits(name@, g, kw@, r as nat), row_hits(name@, r as nat, rv, kw@, (c + 1) as nat),
                            row_hits(name@, r as nat, rv, kw@, rv.len()));
                        assert(grid_hits(name@, g, kw@, (r + 1) as nat) == grid_hits(name@, g, kw@, r as nat) + row_hits(name@, r as nat, rv, kw@, rv.len()));
                        lemma_grid_prefix(name@, g, kw@, (r + 1) as nat, g.len());
                        lemma_prefix_trans(grid_hits(name@, g, kw@, r as nat) + row_hits(name@, r as nat, rv, kw@, (c + 1) as nat),
                            grid_hits(name@, g, kw@, (r + 1) as nat), grid_hits(name@, g, kw@, g.len()));
                        lemma_prefix_append(base, grid_hits(name@, g, kw@, r as nat) + row_hits(name@, r as nat, rv, kw@, (c + 1) as nat),
                            grid_hits(name@, g, kw@, g.len()));
                        assert(base + (grid_hits(name@, g, kw@, r as nat) + row_hits(name@, r as nat, rv, kw@, (c + 1) as nat))
                            == hits_view(hits@));
                    }
                    return true;
                }
            } else {
                assert(!text_contains(rv[c as int], kw@));
                assert(row_hits(name@, r as nat, rv, kw@, (c + 1) as nat) == row_hits(name@, r as nat, rv, kw@, c as nat));
            }
            c += 1;
        }
        assert(grid_hits(name@, g, kw@, (r + 1) as nat) == grid_hits(name@, g, kw@, r as nat) + row_hits(name@, r as nat, rv, kw@, rv.len()));
        r += 1;
    }
    false
}

/// Searches the sheets (read by the caller, in order) for cells that
/// contain `keyword`; `limit` above 0 caps the number of hits. With a
/// `target_sheet`, a sheet that could not be read is `SheetNotFound`.
pub fn search_file(sheets: &Vec<SheetRows>, keyword: &str, target_sheet: Option<&str>, limit: usize)
    -> (r: Result<Vec<SearchHit>, AppError>)
    ensures
        match search_fold(sheets@, 0, keyword@, target_sheet is Some, limit as nat, Seq::empty()) {
            Some(h) => r matches Ok(v) && hits_view(v@) == h,
            None => r matches Err(AppError::SheetNotFound(m)) && m@ == target_sheet.unwrap()@,
        },
{
    let kw = str_chars(keyword);
    let mut hits: Vec<SearchHit> = Vec::new();
    let ghost f0 = search_fold(sheets@, 0, keyword@, target_sheet is Some, limit as nat, Seq::empty());
    assert(hits_view(hits@) == Seq::<HitView>::empty());
    let mut k: usize = 0;
    while k < sheets.len()
        invariant
            k <= sheets.len(),
            kw@ == keyword@,
            f0 == search_fold(sheets@, 0, keyword@, target_sheet is Some, limit as nat, Seq::empty()),
            f0 == search_fold(sheets@, k as int, keyword@, target_sheet is Some, limit as nat, hits_view(hits@)),
            limit > 0 ==> hits@.len() < limit,
        decreases sheets.len() - k,
    {
        match &sheets[k].rows {
            None => {
                if target_sheet.is_some() {
                    return Err(AppError::SheetNotFound(target_sheet.unwrap().to_owned()));
                }
            },
            Some(rows) => {
                let placed = place_rows(rows, sheets[k].origin.0, sheets[k].origin.1);
                let stopped = search_sheet(&sheets[k].name, &placed, kw.as_slice(), limit, &mut hits);
                if stopped {
                    return Ok(hits);
                }
            },
        }
        k += 1;
    }
    Ok(hits)
}

/// `A1` through the last used cell of a sheet of that size (a sheet without
/// rows or columns counts as `A1:A1`).
pub open spec fn used_range(rows: usize, cols: usize) -> Seq<char> {
    "A1:"@ + (if cols > 0 { col_letters((cols as u32) as nat) } else { "A"@ })
        + decimal((if rows > 0 { rows } else { 1 }) as nat)
}

pub open spec fn meta_view(m: SheetMeta) -> (Seq<char>, usize, usize) {
    (m.name@, m.rows, m.cols)
}

/// The sheet sizes that an inspection reports, 0 for a sheet that could
/// not be read.
pub open spec fn metas_of(sheets: Seq<(String, Option<(usize, usize)>)>) -> Seq<(Seq<char>, usize, usize)> {
    sheets.map_values(|s: (String, Option<(usize, usize)>)| match s.1 {
        Some((r, c)) => (s.0@, r, c),
        None => (s.0@, 0usize, 0usize),
    })
}

/// Reports a workbook's sheets and sizes (as the caller read them; `None`
/// for a sheet that could not be read), or, with a `target_sheet`, that
/// sheet's size and used range; the target is the first entry of that
/// name, and a missing or unreadable one is `SheetNotFound`.
pub fn inspect_file(file_path: &str, target_sheet: Option<&str>, sheets: &Vec<(String, Option<(usize, usize)>)>)
    -> (r: Result<InspectData, AppError>)
    ensures
        r matches Ok(d) ==> d.file@ == file_path@,
        target_sheet is None ==> (r matches Ok(d) && d.total_sheets == Some(sheets.len())
            && (d.sheets matches Some(v) && v@.map_values(|m: SheetMeta| meta_view(m)) == metas_of(sheets@))
            && d.target_sheet is None && d.rows is None && d.cols is None && d.range is None),
        target_sheet matches Some(t) ==> match first_size(sheets@, t@) {
            Some((rows, cols)) => r matches Ok(d) && d.total_sheets is None && d.sheets is None
                && (d.target_sheet matches Some(n) && n@ == t@) && d.rows == Some(rows) && d.cols == Some(cols)
                && (d.range matches Some(g) && g@ == used_range(rows, cols)),
            None => r matches Err(AppError::SheetNotFound(m)) && m@ == t@,
        },
{
    match target_sheet {
        Some(t) => {
            match find_size(sheets, t) {
                None => Err(AppError::SheetNotFound(t.to_owned())),
                Some((rows, cols)) => {
                    let mut range = "A1:".to_owned();
                    if cols > 0 {
                        let letters = col_to_letter(cols as u32);
                        push_str(&mut range, letters.as_str());
                    } else {
                        push_str(&mut range, "A");
                    }
                    push_decimal(&mut range, if rows > 0 { rows } else { 1 });
                    Ok(InspectData {
                        file: file_path.to_owned(),
                        total_sheets: None,
                        sheets: None,
                        target_sheet: Some(t.to_owned()),
                        rows: Some(rows),
                        cols: Some(cols),
                        range: Some(range),
                    })
                },
            }
        },
        None => {
            let mut metas: Vec<SheetMeta> = Vec::new();
            let mut i: usize = 0;
            while i < sheets.len()
                invariant
                    i <= sheets.len(),
                    metas@.map_values(|m: SheetMeta| meta_view(m)) == metas_of(sheets@).take(i as int),
                decreases sheets.len() - i,
            {
                let (rows, cols) = match sheets[i].1 {
                    Some((r, c)) => (r, c),
                    None => (0, 0),
                };
                let ghost before = metas@.map_values(|m: SheetMeta| meta_view(m));
                let m = SheetMeta { name: sheets[i].0.clone(), rows, cols };
                metas.push(m);
                assert(metas@.map_values(|m: SheetMeta| meta_view(m)) == before.push(meta_view(m)));
                assert(metas_of(sheets@).take(i + 1) == metas_of(sheets@).take(i as int).push(metas_of(sheets@)[i as int]));
                i += 1;
            }
            assert(metas_of(sheets@).take(sheets.len() as int) == metas_of(sheets@));
            let n = metas.len();
            Ok(InspectData {
                file: file_path.to_owned(),
                total_sheets: Some(n),
                sheets: Some(metas),
                target_sheet: None,
                rows: None,
                cols: None,
                range: None,
            })
        },
    }
}

/// The size recorded for the first sheet of that name, if it was read.
pub open spec fn first_size(sheets: Seq<(String, Option<(usize, usize)>)>, name: Seq<char>) -> Option<(usize, usize)>
    decreases sheets.len(),
{
    if sheets.len() == 0 {
        None
    } else if sheets[0].0@ == name {
        sheets[0].1
    } else {
        first_size(sheets.skip(1), name)
    }
}

fn find_size(sheets: &Vec<(String, Option<(usize, usize)>)>, name: &str) -> (r: Option<(usize, usize)>)
    ensures
        r == first_size(sheets@, name@),
{
    let target = str_chars(name);
    let mut i: usize = 0;
    assert(sheets@.skip(0) == sheets@);
    while i < sheets.len()
        invariant
            i <= sheets.len(),
            target@ == name@,
            first_size(sheets@, name@) == first_size(sheets@.skip(i as int), name@),
        decreases sheets.len() - i,
    {
        assert(sheets@.skip(i as int)[0] == sheets@[i as int]);
        assert(sheets@.skip(i as int).skip(1) == sheets@.skip(i + 1));
        if crate::text::chars_eq(str_chars(sheets[i].0.as_str()).as_slice(), target.as_slice()) {
            return sheets[i].1;
        }
        i += 1;
    }
    None
}

proof fn lemma_search_limit(sheets: Seq<SheetRows>, k: int, kw: Seq<char>, one_sheet: bool, limit: nat, acc: Seq<HitView>)
    requires
        limit > 0,
        acc.len() <= limit,
    ensures
        search_fold(sheets, k, kw, one_sheet, limit, acc) matches Some(h) ==> h.len() <= limit,
    decreases sheets.len() - k,
{
    if 0 <= k < sheets.len() {
        match sheets[k].rows {
            None => {
                if !one_sheet {
                    lemma_search_limit(sheets, k + 1, kw, one_sheet, limit, acc);
                }
            },
            Some(rows) => {
                let g = placed_grid(grid_view(rows@), sheets[k].origin.0 as nat, sheets[k].origin.1 as nat);
                let all = acc + grid_hits(sheets[k].name@, g, kw, g.len());
                if !(limit > 0 && all.len() >= limit) {
                    lemma_search_limit(sheets, k + 1, kw, one_sheet, limit, all);
                }
            },
        }
    }
}

/// A search with a positive limit reports at most that many hits.
pub proof fn law_search_respects_limit(sheets: Seq<SheetRows>, kw: Seq<char>, one_sheet: bool, limit: nat)
    requires
        limit > 0,
    ensures
        search_fold(sheets, 0, kw, one_sheet, limit, Seq::empty()) matches Some(h) ==> h.len() <= limit,
{
    lemma_search_limit(sheets, 0, kw, one_sheet, limit, Seq::empty());
}

/// Reading with a row limit gives at most that many rows, the first rows
/// of what was read.
pub proof fn law_read_head_limit(g: Seq<Seq<Seq<char>>>, n: usize)
    ensures
        head_rows(g, Some(n)).len() <= n,
        head_rows(g, Some(n)) == g.take(head_rows(g, Some(n)).len() as int),
{
    if n >= g.len() {
        assert(g.take(g.len() as int) == g);
    }
}

/// A hit names a cell of its row that holds the keyword.
pub open spec fn hit_holds_keyword(h: HitView, kw: Seq<char>) -> bool {
    &&& text_contains(h.3, kw)
    &&& 1 <= h.2 <= h.4.len()
    &&& h.4[h.2 - 1] == h.3
}

proof fn lemma_row_hits_hold(name: Seq<char>, r: nat, row: Seq<Seq<char>>, kw: Seq<char>, n: nat)
    ensures
        forall|i: int| 0 <= i < row_hits(name, r, row, kw, n).len()
            ==> hit_holds_keyword(#[trigger] row_hits(name, r, row, kw, n)[i], kw),
    decreases n,
{
    if n > 0 && n <= row.len() {
        lemma_row_hits_hold(name, r, row, kw, (n - 1) as nat);
        let a = row_hits(name, r, row, kw, (n - 1) as nat);
        let b = if text_contains(row[n - 1], kw) {
            seq![(name, r + 1, n, row[n - 1], row)]
        } else {
            Seq::<HitView>::empty()
        };
        assert(row_hits(name, r, row, kw, n) == a + b);
        assert forall|i: int| 0 <= i < (a + b).len() implies hit_holds_keyword(#[trigger] (a + b)[i], kw) by {
            if i >= a.len() {
                assert((a + b)[i] == b[i - a.len()]);
            }
        }
    }
}

proof fn lemma_grid_hits_hold(name: Seq<char>, g: Seq<Seq<Seq<char>>>, kw: Seq<char>, m: nat)
    ensures
        forall|i: int| 0 <= i < grid_hits(name, g, kw, m).len()
            ==> hit_holds_keyword(#[trigger] grid_hits(name, g, kw, m)[i], kw),
    decreases m,
{
    if m > 0 && m <= g.len() {
        lemma_grid_hits_hold(name, g, kw, (m - 1) as nat);
        lemma_row_hits_hold(name, (m - 1) as nat, g[m - 1], kw, g[m - 1].len());
        let a = grid_hits(name, g, kw, (m - 1) as nat);
        let b = row_hits(name, (m - 1) as nat, g[m - 1], kw, g[m - 1].len());
        assert forall|i: int| 0 <= i < (a + b).len() implies hit_holds_keyword(#[trigger] (a + b)[i], kw) by {
            if i >= a.len() {
                assert((a + b)[i] == b[i - a.len()]);
            }
        }
    }
}

proof fn lemma_search_hits_hold(sheets: Seq<SheetRows>, k: int, kw: Seq<char>, one_sheet: bool, limit: nat, acc: Seq<HitView>)
    requires
        forall|i: int| 0 <= i < acc.len() ==> hit_holds_keyword(#[trigger] acc[i], kw),
    ensures
        search_fold(sheets, k, kw, one_sheet, limit, acc) matches Some(h)
            ==> forall|i: int| 0 <= i < h.len() ==> hit_holds_keyword(#[trigger] h[i], kw),
    decreases sheets.len() - k,
{
    if 0 <= k < sheets.len() {
        match sheets[k].rows {
            None => {
                if !one_sheet {
                    lemma_search_hits_hold(sheets, k + 1, kw, one_sheet, limit, acc);
                }
            },
            Some(rows) => {
                let g = placed_grid(grid_view(rows@), sheets[k].origin.0 as nat, sheets[k].origin.1 as nat);
                let b = grid_hits(sheets[k].name@, g, kw, g.len());
                let all = acc + b;
                lemma_grid_hits_hold(sheets[k].name@, g, kw, g.len());
                assert forall|i: int| 0 <= i < all.len() implies hit_holds_keyword(#[trigger] all[i], kw) by {
                    if i >= acc.len() {
                        assert(all[i] == b[i - acc.len()]);
                    }
                }
                if limit > 0 && all.len() >= limit {
                    assert forall|i: int| 0 <= i < all.take(limit as int).len()
                        implies hit_holds_keyword(#[trigger] all.take(limit as int)[i], kw) by {
                        assert(all.take(limit as int)[i] == all[i]);
                    }
                } else {
                    lemma_search_hits_hold(sheets, k + 1, kw, one_sheet, limit, all);
                }
            },
        }
    }
}

/// Every hit a search reports is a cell that contains the keyword, and the
/// row it reports holds that cell at the reported column.
pub proof fn law_search_hits_contain_keyword(sheets: Seq<SheetRows>, kw: Seq<char>, one_sheet: bool, limit: nat)
    ensures
        search_fold(sheets, 0, kw, one_sheet, limit, Seq::empty()) matches Some(h)
            ==> forall|i: int| 0 <= i < h.len() ==> hit_holds_keyword(#[trigger] h[i], kw),
{
    lemma_search_hits_hold(sheets, 0, kw, one_sheet, limit, Seq::empty());
}

} // verus!
