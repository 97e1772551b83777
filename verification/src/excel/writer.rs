use vstd::prelude::*;

use crate::excel::error::AppError;
use crate::num::{all_digits, digits_val, parse_bounded};
use crate::text::{chars_eq, decimal, push_chars, push_decimal, push_str, str_chars};

verus! {

/// What the tools need to know of one worksheet: its name and the number of
/// its last used row (0 for an empty sheet).
pub struct SheetInfo {
    pub name: String,
    pub highest_row: u32,
}

/// The index of the first sheet with that name.
pub open spec fn sheet_position(sheets: Seq<SheetInfo>, name: Seq<char>) -> Option<int>
    decreases sheets.len(),
{
    if sheets.len() == 0 {
        None
    } else {
        match sheet_position(sheets.drop_last(), name) {
            Some(i) => Some(i),
            None => if sheets.last().name@ == name {
                Some(sheets.len() - 1)
            } else {
                None
            },
        }
    }
}

pub proof fn lemma_sheet_position(sheets: Seq<SheetInfo>, name: Seq<char>)
    ensures
        sheet_position(sheets, name) matches Some(i) ==> 0 <= i < sheets.len() && sheets[i].name@ == name,
        sheet_position(sheets, name) is None ==> forall|j: int| 0 <= j < sheets.len() ==> sheets[j].name@ != name,
    decreases sheets.len(),
{
    if sheets.len() > 0 {
        lemma_sheet_position(sheets.drop_last(), name);
        if sheet_position(sheets, name) is None {
            assert forall|j: int| 0 <= j < sheets.len() implies sheets[j].name@ != name by {
                if j < sheets.len() - 1 {
                    assert(sheets.drop_last()[j] == sheets[j]);
                }
            }
        }
    }
}

fn find_sheet(sheets: &Vec<SheetInfo>, name: &str) -> (r: Option<usize>)
    ensures
        r matches Some(i) ==> sheet_position(sheets@, name@) == Some(i as int),
        r is None ==> sheet_position(sheets@, name@) is None,
{
    let target = str_chars(name);
    let mut i: usize = 0;
    while i < sheets.len()
        invariant
            i <= sheets.len(),
            target@ == name@,
            sheet_position(sheets@.take(i as int), name@) is None,
        decreases sheets.len() - i,
    {
        assert(sheets@.take(i + 1).drop_last() == sheets@.take(i as int));
        if chars_eq(str_chars(sheets[i].name.as_str()).as_slice(), target.as_slice()) {
            proof {
                lemma_position_prefix(sheets@, name@, i as int + 1);
            }
            return Some(i);
        }
        i += 1;
    }
    assert(sheets@.take(sheets.len() as int) == sheets@);
    None
}

proof fn lemma_position_prefix(sheets: Seq<SheetInfo>, name: Seq<char>, k: int)
    requires
        0 <= k <= sheets.len(),
        sheet_position(sheets.take(k), name) is Some,
    ensures
        sheet_position(sheets, name) == sheet_position(sheets.take(k), name),
    decreases sheets.len() - k,
{
    if k < sheets.len() {
        assert(sheets.take(k + 1).drop_last() == sheets.take(k));
        lemma_position_prefix(sheets, name, k + 1);
    } else {
        assert(sheets.take(k) == sheets);
    }
}

/// The sheet an operation works on: the named one, or the first.
pub open spec fn sheet_choice(sheets: Seq<SheetInfo>, sheet_name: Option<Seq<char>>) -> Option<int> {
    match sheet_name {
        Some(n) => sheet_position(sheets, n),
        None => if sheets.len() > 0 {
            Some(0)
        } else {
            None
        },
    }
}

/// The error for a sheet that cannot be chosen: `SheetNotFound` with the
/// name for a missing named sheet, a general error for a workbook without
/// sheets.
pub open spec fn sheet_error(sheet_name: Option<Seq<char>>, e: AppError) -> bool {
    match sheet_name {
        Some(n) => e matches AppError::SheetNotFound(m) && m@ == n,
        None => e matches AppError::General(m) && m@ == "未找到有效工作表"@,
    }
}

pub open spec fn opt_name(o: Option<&str>) -> Option<Seq<char>> {
    match o {
        Some(s) => Some(s@),
        None => None,
    }
}

/// Chooses the sheet to work on.
pub fn resolve_sheet(sheets: &Vec<SheetInfo>, sheet_name: Option<&str>) -> (r: Result<usize, AppError>)
    ensures
        sheet_choice(sheets@, opt_name(sheet_name)) matches Some(i) ==> (r matches Ok(j) && j == i),
        sheet_choice(sheets@, opt_name(sheet_name)) is None ==> (r matches Err(e) && sheet_error(opt_name(sheet_name), e)),
        sheet_choice(sheets@, opt_name(sheet_name)) matches Some(i) ==> 0 <= i < sheets@.len(),
        r matches Ok(i) ==> i < sheets@.len(),
{
    proof {
        if let Some(n) = opt_name(sheet_name) {
            lemma_sheet_position(sheets@, n);
        }
    }
    match sheet_name {
        Some(name) => match find_sheet(sheets, name) {
            Some(i) => Ok(i),
            None => Err(AppError::SheetNotFound(name.to_owned())),
        },
        None => if sheets.len() > 0 {
            Ok(0)
        } else {
            Err(AppError::General("未找到有效工作表".to_owned()))
        },
    }
}

/// Excel column letters for a column number from 1: bijective base 26,
/// `A` for 1, `Z` for 26, `AA` for 27; no letters for 0.
pub open spec fn col_letters(n: nat) -> Seq<char>
    decreases n,
{
    if n == 0 {
        Seq::empty()
    } else {
        col_letters(((n - 1) / 26) as nat).push((65 + (n - 1) % 26) as char)
    }
}

/// The column letters of a column number.
pub fn col_to_letter(col: u32) -> (s: String)
    ensures
        s@ == col_letters(col as nat),
    decreases col,
{
    if col == 0 {
        return String::new();
    }
    let c = col - 1;
    let mut s = col_to_letter(c / 26);
    let code: u32 = 65 + c % 26;
    let ch = char::from_u32(code);
    proof {
        assert(vstd::utf8::is_scalar(code));
    }
    s.push(ch.unwrap());
    s
}

/// `str::parse::<i64>`: an optional sign and at least one ASCII digit,
/// within the range of `i64`.
pub open spec fn parse_i64(s: Seq<char>) -> Option<int> {
    if s.len() > 0 && s[0] == '-' {
        let b = s.skip(1);
        if b.len() > 0 && all_digits(b, 10) && digits_val(b, 10) <= 9223372036854775808 {
            Some(-(digits_val(b, 10) as int))
        } else {
            None
        }
    } else {
        match parse_bounded(s, 10, 9223372036854775807) {
            Some(v) => Some(v as int),
            None => None,
        }
    }
}

/// Parses an `i64` as `str::parse` does.
pub fn parse_i64_exec(s: &[char]) -> (r: Option<i64>)
    ensures
        r matches Some(v) ==> parse_i64(s@) == Some(v as int),
        r is None ==> parse_i64(s@) is None,
{
    if s.len() > 0 && s[0] == '-' {
        let mut body: Vec<char> = Vec::new();
        let mut i: usize = 1;
        while i < s.len()
            invariant
                1 <= i <= s.len(),
                body@ == s@.subrange(1, i as int),
            decreases s.len() - i,
        {
            body.push(s[i]);
            i += 1;
        }
        assert(body@ == s@.skip(1));
        if body.len() == 0 || body[0] == '+' {
            return None;
        }
        match crate::num::parse_unsigned_chars(body.as_slice(), 10, 9223372036854775808) {
            Some(v) => {
                if v == 9223372036854775808 {
                    Some(i64::MIN)
                } else {
                    Some(-(v as i64))
                }
            },
            None => None,
        }
    } else {
        match crate::num::parse_unsigned_chars(s, 10, 9223372036854775807) {
            Some(v) => Some(v as i64),
            None => None,
        }
    }
}

/// What a cell is set to. `Other` holds text that is a number when it
/// reads as a floating-point number and a string otherwise; the caller,
/// which holds the workbook, makes that last distinction.
pub enum CellValue {
    Formula(String),
    Integer(i64),
    Bool(bool),
    Other(String),
}

/// How a typed value is stored: text starting with `=` is a formula; else
/// an integer when it reads as an `i64`; else a boolean for `true` and
/// `false`; else the text as it is.
pub open spec fn classified(v: Seq<char>, c: CellValue) -> bool {
    if v.len() > 0 && v[0] == '=' {
        c matches CellValue::Formula(f) && f@ == v
    } else if parse_i64(v) is Some {
        c == CellValue::Integer(parse_i64(v).unwrap() as i64)
    } else if v == "true"@ {
        c == CellValue::Bool(true)
    } else if v == "false"@ {
        c == CellValue::Bool(false)
    } else {
        c matches CellValue::Other(t) && t@ == v
    }
}

/// Decides how a typed value is stored.
pub fn classify_value(value: &str) -> (c: CellValue)
    ensures
        classified(value@, c),
{
    let v = str_chars(value);
    if v.len() > 0 && v[0] == '=' {
        return CellValue::Formula(value.to_owned());
    }
    match parse_i64_exec(v.as_slice()) {
        Some(n) => CellValue::Integer(n),
        None => {
            if chars_eq(v.as_slice(), str_chars("true").as_slice()) {
                CellValue::Bool(true)
            } else if chars_eq(v.as_slice(), str_chars("false").as_slice()) {
                CellValue::Bool(false)
            } else {
                CellValue::Other(value.to_owned())
            }
        },
    }
}

/// A cell to set: the sheet, the coordinate and the value.
pub struct CellWrite {
    pub sheet_index: usize,
    pub coord: String,
    pub value: CellValue,
    pub message: String,
}

/// Decides how `value` goes into the cell at `coord` of the chosen sheet.
pub fn write_cell(sheets: &Vec<SheetInfo>, sheet_name: Option<&str>, coord: &str, value: &str) -> (r: Result<CellWrite, AppError>)
    ensures
        sheet_choice(sheets@, opt_name(sheet_name)) is None ==> (r matches Err(e) && sheet_error(opt_name(sheet_name), e)),
        sheet_choice(sheets@, opt_name(sheet_name)) matches Some(i) ==> (r matches Ok(w) && w.sheet_index == i
            && w.coord@ == coord@ && classified(value@, w.value)
            && w.message@ == "单元格 "@ + coord@ + " 写入成功: "@ + value@),
{
    let idx = match resolve_sheet(sheets, sheet_name) {
        Ok(i) => i,
        Err(e) => return Err(e),
    };
    let mut msg = "单元格 ".to_owned();
    push_str(&mut msg, coord);
    push_str(&mut msg, " 写入成功: ");
    push_str(&mut msg, value);
    Ok(CellWrite { sheet_index: idx, coord: coord.to_owned(), value: classify_value(value), message: msg })
}

/// A row to append: the sheet, the row number and each cell's coordinate
/// and value.
pub struct RowWrite {
    pub sheet_index: usize,
    pub row: u32,
    pub cells: Vec<(String, CellValue)>,
}

/// The row after the last used one (row 1 on an empty sheet).
pub open spec fn next_row(highest: u32) -> nat {
    if highest == 0 { 1 } else { (highest + 1) as nat }
}

/// Decides where and how `values` are appended: on the row after the last
/// used one, from column A on.
pub fn append_row(sheets: &Vec<SheetInfo>, sheet_name: Option<&str>, values: &[String]) -> (r: Result<RowWrite, AppError>)
    requires
        forall|i: int| 0 <= i < sheets@.len() ==> (#[trigger] sheets@[i]).highest_row < u32::MAX,
    ensures
        sheet_choice(sheets@, opt_name(sheet_name)) is None ==> (r matches Err(e) && sheet_error(opt_name(sheet_name), e)),
        sheet_choice(sheets@, opt_name(sheet_name)) matches Some(i) ==> (r matches Ok(w) && w.sheet_index == i
            && w.row as nat == next_row(sheets@[i].highest_row)
            && w.cells@.len() == values@.len()
            && forall|k: int| 0 <= k < values@.len() ==> {
                &&& (#[trigger] w.cells@[k]).0@ == col_letters(((k + 1) as u32) as nat) + decimal(w.row as nat)
                &&& classified(values@[k]@, w.cells@[k].1)
            }),
{
    let idx = match resolve_sheet(sheets, sheet_name) {
        Ok(i) => i,
        Err(e) => return Err(e),
    };
    let highest = sheets[idx].highest_row;
    let row: u32 = if highest == 0 { 1 } else { highest + 1 };
    let mut cells: Vec<(String, CellValue)> = Vec::new();
    let mut k: usize = 0;
    while k < values.len()
        invariant
            k <= values.len(),
            cells@.len() == k,
            forall|j: int| 0 <= j < k ==> {
                &&& (#[trigger] cells@[j]).0@ == col_letters(((j + 1) as u32) as nat) + decimal(row as nat)
                &&& classified(values@[j]@, cells@[j].1)
            },
        decreases values.len() - k,
    {
        let col: u32 = (k + 1) as u32;
        let mut coord = col_to_letter(col);
        push_decimal(&mut coord, row as usize);
        cells.push((coord, classify_value(values[k].as_str())));
        k += 1;
    }
    Ok(RowWrite { sheet_index: idx, row, cells })
}

/// A change to the list of sheets.
pub enum SheetAction {
    Add(String),
    Remove(String),
    Rename(usize, String),
}

/// What a sheet command does: the change and the message.
pub struct SheetPlan {
    pub action: SheetAction,
    pub message: String,
}

/// Decides a sheet command: `add` a sheet, `remove` one (never the last),
/// or `rename` one to `new_name`.
pub fn manage_sheet(sheets: &Vec<SheetInfo>, action: &str, sheet_name: &str, new_name: Option<&str>) -> (r: Result<SheetPlan, AppError>)
    ensures
        action@ == "add"@ ==> (r matches Ok(p) && (p.action matches SheetAction::Add(n) && n@ == sheet_name@)
            && p.message@ == "工作表 "@ + sheet_name@ + " 创建成功"@),
        action@ == "remove"@ && sheets@.len() <= 1 ==> (r matches Err(AppError::General(m)) && m@ == "无法删除仅存的最后一个工作表"@),
        action@ == "remove"@ && sheets@.len() > 1 && sheet_position(sheets@, sheet_name@) is None
            ==> (r matches Err(AppError::SheetNotFound(m)) && m@ == sheet_name@),
        action@ == "remove"@ && sheets@.len() > 1 && sheet_position(sheets@, sheet_name@) is Some
            ==> (r matches Ok(p) && (p.action matches SheetAction::Remove(n) && n@ == sheet_name@)
            && p.message@ == "工作表 "@ + sheet_name@ + " 删除成功"@),
        action@ == "rename"@ && new_name is None ==> (r matches Err(AppError::General(m)) && m@ == "重命名工作表必须提供 new_name"@),
        action@ == "rename"@ && new_name is Some && sheet_position(sheets@, sheet_name@) is None
            ==> (r matches Err(AppError::SheetNotFound(m)) && m@ == sheet_name@),
        action@ == "rename"@ && new_name is Some && sheet_position(sheets@, sheet_name@) is Some
            ==> (r matches Ok(p) && (p.action matches SheetAction::Rename(j, n)
            && j == sheet_position(sheets@, sheet_name@).unwrap() && n@ == new_name.unwrap()@)
            && p.message@ == "工作表已重命名: "@ + sheet_name@ + " -> "@ + new_name.unwrap()@),
        action@ != "add"@ && action@ != "remove"@ && action@ != "rename"@
            ==> (r matches Err(AppError::General(m)) && m@ == "不支持的工作表操作: "@ + action@),
{
    let a = str_chars(action);
    proof {
        reveal_strlit("add");
        reveal_strlit("remove");
        reveal_strlit("rename");
    }
    if chars_eq(a.as_slice(), str_chars("add").as_slice()) {
        assert(a@.len() != "remove"@.len());
        let mut msg = "工作表 ".to_owned();
        push_str(&mut msg, sheet_name);
        push_str(&mut msg, " 创建成功");
        Ok(SheetPlan { action: SheetAction::Add(sheet_name.to_owned()), message: msg })
    } else if chars_eq(a.as_slice(), str_chars("remove").as_slice()) {
        assert(a@[2] != "rename"@[2]);
        if sheets.len() <= 1 {
            return Err(AppError::General("无法删除仅存的最后一个工作表".to_owned()));
        }
        match find_sheet(sheets, sheet_name) {
            None => Err(AppError::SheetNotFound(sheet_name.to_owned())),
            Some(_) => {
                let mut msg = "工作表 ".to_owned();
                push_str(&mut msg, sheet_name);
                push_str(&mut msg, " 删除成功");
                Ok(SheetPlan { action: SheetAction::Remove(sheet_name.to_owned()), message: msg })
            },
        }
    } else if chars_eq(a.as_slice(), str_chars("rename").as_slice()) {
        assert(a@[2] != "remove"@[2]);
        let n = match new_name {
            Some(n) => n,
            None => {
                return Err(AppError::General("重命名工作表必须提供 new_name".to_owned()));
            },
        };
        match find_sheet(sheets, sheet_name) {
            None => Err(AppError::SheetNotFound(sheet_name.to_owned())),
            Some(i) => {
                let mut msg = "工作表已重命名: ".to_owned();
                push_str(&mut msg, sheet_name);
                push_str(&mut msg, " -> ");
                push_str(&mut msg, n);
                Ok(SheetPlan { action: SheetAction::Rename(i, n.to_owned()), message: msg })
            },
        }
    } else {
        let mut msg = "不支持的工作表操作: ".to_owned();
        push_str(&mut msg, action);
        Err(AppError::General(msg))
    }
}

/// The sheet a new workbook gets (the name given, else `Sheet1`) and the
/// message for it.
pub fn create_workbook(file_path: &str, sheet_name: Option<&str>) -> (r: (String, String))
    ensures
        r.0@ == (match sheet_name { Some(n) => n@, None => "Sheet1"@ }),
        r.1@ == "工作簿创建成功: "@ + file_path@ + " (Sheet: "@ + r.0@ + ")"@,
{
    let target = match sheet_name {
        Some(n) => n.to_owned(),
        None => "Sheet1".to_owned(),
    };
    let mut msg = "工作簿创建成功: ".to_owned();
    push_str(&mut msg, file_path);
    push_str(&mut msg, " (Sheet: ");
    push_str(&mut msg, target.as_str());
    push_str(&mut msg, ")");
    (target, msg)
}

} // verus!
