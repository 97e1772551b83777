use goose_office::excel::error::AppError;
use goose_office::excel::export::export_to_csv;
use goose_office::excel::formatter::{
    letter_to_col, letter_to_col_checked, letters_fit, merge_cells, modify_grid, parse_hex_color, style_range, GridOp, HAlign, VAlign,
};
use goose_office::excel::reader::{
    clean_path, inspect_file, ReadData, parse_range_str, range_fits, read_range, search_file, SheetRows,
};
use goose_office::excel::writer::{
    append_row, classify_value, col_to_letter, create_workbook, manage_sheet, resolve_sheet, write_cell, CellValue,
    SheetAction, SheetInfo,
};

fn sheets(names: &[(&str, u32)]) -> Vec<SheetInfo> {
    names.iter().map(|(n, h)| SheetInfo { name: n.to_string(), highest_row: *h }).collect()
}

fn grid(rows: &[&[&str]]) -> Vec<Vec<String>> {
    rows.iter().map(|r| r.iter().map(|c| c.to_string()).collect()).collect()
}

#[test]
fn column_letters_examples() {
    assert_eq!(col_to_letter(0), "");
    assert_eq!(col_to_letter(1), "A");
    assert_eq!(col_to_letter(26), "Z");
    assert_eq!(col_to_letter(27), "AA");
    assert_eq!(col_to_letter(28), "AB");
    assert_eq!(col_to_letter(702), "ZZ");
    assert_eq!(col_to_letter(703), "AAA");
}

#[test]
fn column_letters_round_trip() {
    for n in 1u32..2000 {
        let letters = col_to_letter(n);
        assert!(letters_fit(&letters));
        assert_eq!(letter_to_col(&letters), n);
    }
}

#[test]
fn letter_to_col_ignores_case() {
    assert_eq!(letter_to_col("A"), 1);
    assert_eq!(letter_to_col("z"), 26);
    assert_eq!(letter_to_col("aa"), 27);
    assert_eq!(letter_to_col("Ab"), 28);
    assert!(!letters_fit("1"));
    assert!(!letters_fit("ZZZZZZZZ"));
}

#[test]
fn hex_colors() {
    assert_eq!(parse_hex_color("4f81bd"), "FF4F81BD");
    assert_eq!(parse_hex_color("#4F81BD"), "FF4F81BD");
    assert_eq!(parse_hex_color("##ffffff"), "FFFFFFFF");
    assert_eq!(parse_hex_color("80ff0000"), "80FF0000");
    assert_eq!(parse_hex_color("abc"), "ABC");
    assert_eq!(parse_hex_color(&parse_hex_color("#123abc")), parse_hex_color("#123abc"));
}

#[test]
fn hex_color_hash_prefix_and_idempotence() {
    for c in ["a1b2c3", "#fff", "", "ééé", "zz00ff", "#"] {
        assert_eq!(parse_hex_color(&format!("#{}", c)), parse_hex_color(c));
        let once = parse_hex_color(c);
        assert_eq!(parse_hex_color(&once), once);
    }
    assert_eq!(parse_hex_color("ééé"), "FFééé");
}

#[test]
fn classify_values() {
    assert!(matches!(classify_value("=SUM(A1:B1)"), CellValue::Formula(f) if f == "=SUM(A1:B1)"));
    assert!(matches!(classify_value("12"), CellValue::Integer(12)));
    assert!(matches!(classify_value("-7"), CellValue::Integer(-7)));
    assert!(matches!(classify_value("+5"), CellValue::Integer(5)));
    assert!(matches!(classify_value("-9223372036854775808"), CellValue::Integer(i64::MIN)));
    assert!(matches!(classify_value("9223372036854775808"), CellValue::Other(_)));
    assert!(matches!(classify_value("true"), CellValue::Bool(true)));
    assert!(matches!(classify_value("false"), CellValue::Bool(false)));
    assert!(matches!(classify_value("True"), CellValue::Other(_)));
    assert!(matches!(classify_value("5600.0"), CellValue::Other(t) if t == "5600.0"));
    assert!(matches!(classify_value("-+1"), CellValue::Other(_)));
}

#[test]
fn sheet_choice_errors() {
    let s = sheets(&[("Sheet1", 0), ("Data", 5)]);
    assert_eq!(resolve_sheet(&s, Some("Data")).ok(), Some(1));
    assert_eq!(resolve_sheet(&s, None).ok(), Some(0));
    match resolve_sheet(&s, Some("Missing")) {
        Err(AppError::SheetNotFound(m)) => assert_eq!(m, "Missing"),
        _ => panic!("expected SheetNotFound"),
    }
    match resolve_sheet(&Vec::new(), None) {
        Err(AppError::General(m)) => assert_eq!(m, "未找到有效工作表"),
        _ => panic!("expected General"),
    }
}

#[test]
fn write_cell_plan() {
    let s = sheets(&[("Sheet1", 3)]);
    let w = write_cell(&s, None, "C1", "=SUM(A1:B1)").ok().unwrap();
    assert_eq!(w.sheet_index, 0);
    assert_eq!(w.coord, "C1");
    assert_eq!(w.message, "单元格 C1 写入成功: =SUM(A1:B1)");
    assert!(matches!(w.value, CellValue::Formula(_)));
}

#[test]
fn append_row_goes_after_last_row() {
    let s = sheets(&[("Sheet1", 0), ("Data", 7)]);
    let vals: Vec<String> = vec!["工程设备".to_string(), "12".to_string(), "5600.0".to_string()];
    let w = append_row(&s, Some("Data"), &vals).ok().unwrap();
    assert_eq!(w.sheet_index, 1);
    assert_eq!(w.row, 8);
    assert_eq!(w.cells.len(), 3);
    assert_eq!(w.cells[0].0, "A8");
    assert_eq!(w.cells[1].0, "B8");
    assert_eq!(w.cells[2].0, "C8");
    assert!(matches!(w.cells[1].1, CellValue::Integer(12)));
    let first = append_row(&s, None, &vals).ok().unwrap();
    assert_eq!(first.row, 1);
    assert_eq!(first.cells[0].0, "A1");
}

#[test]
fn sheet_management() {
    let s = sheets(&[("Sheet1", 0), ("Data", 0)]);
    let p = manage_sheet(&s, "add", "New", None).ok().unwrap();
    assert!(matches!(p.action, SheetAction::Add(ref n) if n == "New"));
    assert_eq!(p.message, "工作表 New 创建成功");
    let p = manage_sheet(&s, "remove", "Data", None).ok().unwrap();
    assert!(matches!(p.action, SheetAction::Remove(ref n) if n == "Data"));
    assert_eq!(p.message, "工作表 Data 删除成功");
    let p = manage_sheet(&s, "rename", "Data", Some("Old")).ok().unwrap();
    assert!(matches!(p.action, SheetAction::Rename(1, ref n) if n == "Old"));
    assert_eq!(p.message, "工作表已重命名: Data -> Old");
    assert!(matches!(manage_sheet(&s, "remove", "Nope", None), Err(AppError::SheetNotFound(ref m)) if m == "Nope"));
    let one = sheets(&[("Sheet1", 0)]);
    assert!(matches!(manage_sheet(&one, "remove", "Sheet1", None), Err(AppError::General(ref m)) if m == "无法删除仅存的最后一个工作表"));
    assert!(matches!(manage_sheet(&s, "rename", "Data", None), Err(AppError::General(ref m)) if m == "重命名工作表必须提供 new_name"));
    assert!(matches!(manage_sheet(&s, "copy", "Data", None), Err(AppError::General(ref m)) if m == "不支持的工作表操作: copy"));
}

#[test]
fn create_workbook_names_its_sheet() {
    let (sheet, msg) = create_workbook("a.xlsx", None);
    assert_eq!(sheet, "Sheet1");
    assert_eq!(msg, "工作簿创建成功: a.xlsx (Sheet: Sheet1)");
    let (sheet, _) = create_workbook("a.xlsx", Some("Data"));
    assert_eq!(sheet, "Data");
}

#[test]
fn grid_plans() {
    let s = sheets(&[("Sheet1", 0)]);
    let p = modify_grid(&s, None, "insert-row", "2", 1).ok().unwrap();
    assert!(matches!(p.op, GridOp::InsertRow(2, 1)));
    assert_eq!(p.message, "已在第 2 行前插入 1 行");
    let p = modify_grid(&s, None, "delete-row", "3", 2).ok().unwrap();
    assert!(matches!(p.op, GridOp::DeleteRow(3, 2)));
    assert_eq!(p.message, "已从第 3 行开始删除 2 行");
    let p = modify_grid(&s, None, "insert-col", "c", 1).ok().unwrap();
    assert!(matches!(p.op, GridOp::InsertCol(ref c, 1) if c == "C"));
    assert_eq!(p.message, "已在列 C 前插入 1 列");
    let p = modify_grid(&s, None, "delete-col", "AB", 1).ok().unwrap();
    assert!(matches!(p.op, GridOp::DeleteCol(28, 1)));
    assert_eq!(p.message, "已从列 AB 开始删除 1 列");
    let p = modify_grid(&s, None, "delete-col", "4", 1).ok().unwrap();
    assert!(matches!(p.op, GridOp::DeleteCol(4, 1)));
    assert!(matches!(modify_grid(&s, None, "insert-row", "x", 1), Err(AppError::General(ref m)) if m == "行号必须是正整数"));
    assert!(matches!(modify_grid(&s, None, "flip", "1", 1),
        Err(AppError::General(ref m)) if m == "不支持的操作: flip。可选: insert-row, delete-row, insert-col, delete-col"));
    assert!(matches!(modify_grid(&s, Some("X"), "flip", "1", 1), Err(AppError::SheetNotFound(_))));
}

#[test]
fn merge_and_style_plans() {
    let s = sheets(&[("Sheet1", 0)]);
    let (idx, msg) = merge_cells(&s, None, "A1:B2").ok().unwrap();
    assert_eq!(idx, 0);
    assert_eq!(msg, "单元格合并成功：A1:B2");
    let p = style_range(&s, None, "A1:E1", Some(true), Some("Arial"), Some("FFFFFF"), Some("#4f81bd"), Some("Centre"),
        Some("TOP"), Some(true)).ok().unwrap();
    assert_eq!(p.font_argb.as_deref(), Some("FFFFFFFF"));
    assert_eq!(p.fill_argb.as_deref(), Some("FF4F81BD"));
    assert!(p.align_h == Some(HAlign::Center));
    assert!(p.align_v == Some(VAlign::Top));
    assert!(p.border);
    assert_eq!(p.message, "区域 A1:E1 样式应用成功");
    assert_eq!(p.cells, vec![(1, 1), (2, 1), (3, 1), (4, 1), (5, 1)]);
    let p = style_range(&s, None, "A1", None, None, None, None, Some("middle"), None, Some(false)).ok().unwrap();
    assert!(p.align_h.is_none());
    assert!(!p.border);
    assert_eq!(p.cells, vec![(1, 1)]);
    let p = style_range(&s, None, "B2:C3", None, None, None, None, None, None, None).ok().unwrap();
    assert_eq!(p.cells, vec![(2, 2), (3, 2), (2, 3), (3, 3)]);
    assert!(matches!(style_range(&s, None, "??", None, None, None, None, None, None, None),
        Err(AppError::InvalidCoordinate(ref m)) if m == "无效的坐标或范围格式: ??"));
}

#[test]
fn range_parsing() {
    assert_eq!(parse_range_str("A1:D10"), Some((0, 0, 9, 3)));
    assert_eq!(parse_range_str("b2"), Some((1, 1, 1, 1)));
    assert_eq!(parse_range_str("D10:A1"), Some((0, 0, 9, 3)));
    assert_eq!(parse_range_str("A0"), Some((0, 0, 0, 0)));
    assert_eq!(parse_range_str("A1B2"), None);
    assert_eq!(parse_range_str("1A"), None);
    assert_eq!(parse_range_str("A1:"), None);
    assert_eq!(parse_range_str(""), None);
    assert!(range_fits("A1:ZZ9"));
    assert!(!range_fits("AAAAAAAAAAAAAAAAAAAA1"));
}

#[test]
fn read_range_slices_and_limits() {
    let rows = grid(&[&["a", "b", "c"], &["d", "e", "f"], &["g", "h", "i"]]);
    let d = read_range("S".to_string(), rows.clone(), 0, 0, Some("B2:C3"), None).ok().unwrap();
    assert_eq!(d.rows, grid(&[&["e", "f"], &["h", "i"]]));
    assert_eq!(d.total_rows, 2);
    assert_eq!(d.total_cols, 2);
    let d = read_range("S".to_string(), rows.clone(), 0, 0, None, Some(1)).ok().unwrap();
    assert_eq!(d.rows, grid(&[&["a", "b", "c"]]));
    assert_eq!(d.total_cols, 3);
    let d = read_range("S".to_string(), rows.clone(), 0, 0, Some("D1:E5"), None).ok().unwrap();
    assert_eq!(d.total_rows, 3);
    assert_eq!(d.total_cols, 0);
    match read_range("S".to_string(), rows.clone(), 0, 0, Some("??"), None) {
        Err(AppError::InvalidCoordinate(m)) => assert_eq!(m, "无效的范围坐标表达式: ??"),
        _ => panic!("expected InvalidCoordinate"),
    }
    let d = read_range("S".to_string(), Vec::new(), 0, 0, Some("??"), None).ok().unwrap();
    assert_eq!(d.total_rows, 0);
}

#[test]
fn search_hits_and_limit() {
    let s = vec![
        SheetRows { name: "A".to_string(), rows: Some(grid(&[&["预算汇总", "x"], &["y", "预算"]])), origin: (0, 0) },
        SheetRows { name: "B".to_string(), rows: None, origin: (0, 0) },
        SheetRows { name: "C".to_string(), rows: Some(grid(&[&["预算表"]])), origin: (0, 0) },
    ];
    let hits = search_file(&s, "预算", None, 0).ok().unwrap();
    assert_eq!(hits.len(), 3);
    assert_eq!(hits[0].sheet, "A");
    assert_eq!((hits[0].row, hits[0].col), (1, 1));
    assert_eq!((hits[1].row, hits[1].col), (2, 2));
    assert_eq!(hits[1].row_data, vec!["y".to_string(), "预算".to_string()]);
    assert_eq!(hits[2].sheet, "C");
    let hits = search_file(&s, "预算", None, 2).ok().unwrap();
    assert_eq!(hits.len(), 2);
    assert!(matches!(search_file(&s, "预算", Some("B"), 5), Err(AppError::SheetNotFound(ref m)) if m == "B"));
}

#[test]
fn search_hits_hold_keyword() {
    let s = vec![SheetRows {
        name: "S".to_string(),
        rows: Some(grid(&[&["abc", "xbx", ""], &["b", "none"], &["cab"]])),
        origin: (0, 0),
    }];
    let hits = search_file(&s, "b", None, 0).ok().unwrap();
    assert_eq!(hits.len(), 4);
    for h in &hits {
        assert!(h.matched_value.contains("b"));
        assert_eq!(h.row_data[h.col - 1], h.matched_value);
    }
}

#[test]
fn inspect_reports_sizes() {
    let info = vec![("Sheet1".to_string(), Some((10usize, 4usize))), ("Bad".to_string(), None)];
    let d = inspect_file("f.xlsx", None, &info).ok().unwrap();
    assert_eq!(d.total_sheets, Some(2));
    let metas = d.sheets.unwrap();
    assert_eq!((metas[1].rows, metas[1].cols), (0, 0));
    let d = inspect_file("f.xlsx", Some("Sheet1"), &info).ok().unwrap();
    assert_eq!(d.range.as_deref(), Some("A1:D10"));
    assert_eq!(d.rows, Some(10));
    let empty = vec![("E".to_string(), Some((0usize, 0usize)))];
    assert_eq!(inspect_file("f", Some("E"), &empty).ok().unwrap().range.as_deref(), Some("A1:A1"));
    assert!(matches!(inspect_file("f", Some("Bad"), &info), Err(AppError::SheetNotFound(_))));
}

#[test]
fn paths_and_messages() {
    assert_eq!(clean_path("\" 'data.xlsx' \""), "data.xlsx");
    assert_eq!(AppError::FileNotFound("x".to_string()).message(), "文件未找到: x");
    assert_eq!(AppError::SheetNotFound("x".to_string()).message(), "工作表未找到: x");
    assert_eq!(AppError::InvalidCoordinate("x".to_string()).message(), "无效的单元格或区域坐标: x");
    assert_eq!(AppError::Calamine("x".to_string()).message(), "Calamine 读取错误: x");
    assert_eq!(AppError::Io("x".to_string()).message(), "IO 错误: x");
    assert_eq!(AppError::General("x".to_string()).message(), "x");
}

fn read_data(rows: &[&[&str]]) -> ReadData {
    let g = grid(rows);
    ReadData { sheet: "S".to_string(), total_rows: g.len(), total_cols: 2, rows: g }
}

#[test]
fn csv_export_quotes_where_needed() {
    let (report, bytes) = export_to_csv(
        "in.xlsx",
        "out.csv",
        read_data(&[&["a", "b,c"], &["say \"hi\"", "x\ny"], &["", ""]]),
    )
    .ok()
    .unwrap();
    assert_eq!(report.output_file, "out.csv");
    assert_eq!(report.exported_sheet, "S");
    assert_eq!(report.total_rows, 3);
    assert_eq!(&bytes[..3], &[0xEF, 0xBB, 0xBF]);
    assert_eq!(
        String::from_utf8(bytes[3..].to_vec()).unwrap(),
        "a,\"b,c\"\n\"say \"\"hi\"\"\",\"x\ny\"\n,\n"
    );
}

#[test]
fn csv_export_single_empty_field_and_uneven_rows() {
    let (_, bytes) = export_to_csv("i", "o", read_data(&[&[""], &["中文"]])).ok().unwrap();
    assert_eq!(String::from_utf8(bytes[3..].to_vec()).unwrap(), "\"\"\n中文\n");
    match export_to_csv("i", "o", read_data(&[&["a", "b"], &["c"]])) {
        Err(AppError::General(m)) => assert_eq!(
            m,
            "CSV 写入错误: CSV error: found record with 1 fields, but the previous record has 2 fields"
        ),
        _ => panic!("expected a CSV error"),
    }
}

#[test]
fn checked_column_letters() {
    assert_eq!(letter_to_col_checked("ab"), Some(28));
    assert_eq!(letter_to_col_checked("Z"), Some(26));
    assert_eq!(letter_to_col_checked("ZZZZZZZZ"), None);
    assert_eq!(letter_to_col_checked("1"), None);
}

#[test]
fn reads_and_searches_count_from_a1() {
    let rows = grid(&[&["x", "y"], &["z", "w"]]);
    let d = read_range("S".to_string(), rows.clone(), 2, 1, Some("B3:C4"), None).ok().unwrap();
    assert_eq!(d.rows, grid(&[&["x", "y"], &["z", "w"]]));
    let d = read_range("S".to_string(), rows.clone(), 2, 1, Some("A1:B3"), None).ok().unwrap();
    assert_eq!(d.rows, grid(&[&[], &[], &["", "x"]]));
    let d = read_range("S".to_string(), rows.clone(), 2, 1, None, None).ok().unwrap();
    assert_eq!(d.rows, rows);
    let s = vec![SheetRows { name: "S".to_string(), rows: Some(rows), origin: (2, 1) }];
    let hits = search_file(&s, "w", None, 0).ok().unwrap();
    assert_eq!((hits[0].row, hits[0].col), (4, 3));
    assert_eq!(hits[0].row_data[hits[0].col - 1], "w");
}

#[test]
fn grid_rows_must_be_positive() {
    let info = sheets(&[("Sheet1", 5)]);
    for action in ["insert-row", "delete-row"] {
        match modify_grid(&info, None, action, "0", 1) {
            Err(AppError::General(m)) => assert_eq!(m, "行号必须是正整数"),
            _ => panic!("row 0 must be refused"),
        }
    }
    assert!(modify_grid(&info, None, "insert-row", "1", 1).is_ok());
}
