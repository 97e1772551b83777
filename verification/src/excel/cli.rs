use vstd::prelude::*;

verus! {

/// Arguments of `inspect`: the workbook, and optionally one sheet.
pub struct InspectArgs {
    pub file: String,
    pub sheet: Option<String>,
}

/// Arguments of `search`: the workbook, the keyword, an optional sheet and
/// an optional cap on the hits.
pub struct SearchArgs {
    pub file: String,
    pub keyword: String,
    pub sheet: Option<String>,
    pub limit: Option<usize>,
}

/// Arguments of `read`: the workbook, an optional sheet, an optional range
/// such as `A1:D10` and an optional number of leading rows.
pub struct ReadArgs {
    pub file: String,
    pub sheet: Option<String>,
    pub range: Option<String>,
    pub head: Option<usize>,
}

/// Arguments of `convert`: the workbook, the CSV file and an optional sheet.
pub struct ConvertArgs {
    pub input: String,
    pub output: String,
    pub sheet: Option<String>,
}

/// Arguments of `create`: the new workbook and the name of its sheet.
pub struct CreateArgs {
    pub file: String,
    pub sheet: Option<String>,
}

/// Arguments of `cell`: the workbook, the cell, the value and the sheet.
pub struct CellArgs {
    pub file: String,
    pub coord: String,
    pub value: String,
    pub sheet: Option<String>,
}

/// Arguments of `append`: the workbook, the sheet and the row's values.
pub struct AppendArgs {
    pub file: String,
    pub sheet: Option<String>,
    pub values: Vec<String>,
}

/// Arguments of `sheet`: the workbook, the action (`add`, `remove`,
/// `rename`), the sheet and its new name.
pub struct SheetArgs {
    pub file: String,
    pub action: String,
    pub sheet: String,
    pub new_name: Option<String>,
}

/// Arguments of `style-get`: the workbook, the cell or range and the sheet.
pub struct StyleGetArgs {
    pub file: String,
    pub coord: String,
    pub sheet: Option<String>,
}

/// Arguments of `merge`: the workbook, the range and the sheet.
pub struct MergeArgs {
    pub file: String,
    pub range: String,
    pub sheet: Option<String>,
}

/// Arguments of `grid`: the workbook, the action, the row or column, how
/// many rows or columns, and the sheet.
pub struct GridArgs {
    pub file: String,
    pub action: String,
    pub target: String,
    pub count: u32,
    pub sheet: Option<String>,
}

} // verus!
