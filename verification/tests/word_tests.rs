use goose_office::word::content::{parse_all_paragraphs, parse_range, read_paragraphs, replace_text, set_highlight};
use goose_office::word::error::WordCliError;
use goose_office::word::importer::{build_run_xml, inject_body_into_document, markdown_to_openxml};
use goose_office::word::inspect::detect_heading_level;
use goose_office::word::lifecycle::{blank_document, create_document, save_as};
use goose_office::word::package::{escape_xml, DocxPackage};
use goose_office::word::page::setup_page_layout;
use goose_office::word::paragraph::{build_paragraph_xml, delete_paragraph, insert_paragraph};
use goose_office::word::styles::list_styles;
use goose_office::word::table::{
    build_row_xml, delete_table_row, format_as_csv, format_as_markdown, insert_table_row, read_table_data,
    set_cell_value,
};

fn doc_with_body(body: &str) -> DocxPackage {
    let xml = format!(
        "<w:document xmlns:w=\"http://schemas.openxmlformats.org/wordprocessingml/2006/main\"><w:body>{}<w:sectPr><w:pgSz w:w=\"11906\" w:h=\"16838\"/></w:sectPr></w:body></w:document>",
        body
    );
    DocxPackage::from_entries(vec![("word/document.xml".to_string(), xml.into_bytes())])
}

fn document_text(pkg: &DocxPackage) -> String {
    match pkg.get_text("word/document.xml") {
        Ok(s) => s,
        Err(_) => panic!("document part is missing"),
    }
}

fn table_body() -> String {
    let row = |a: &str, b: &str| {
        format!(
            "<w:tr><w:tc><w:p><w:r><w:t>{}</w:t></w:r></w:p></w:tc><w:tc><w:p><w:r><w:t>{}</w:t></w:r></w:p></w:tc></w:tr>",
            a, b
        )
    };
    format!("<w:tbl>{}{}</w:tbl>", row("Name", "Age"), row("Ann", "30"))
}

#[test]
fn package_text_round_trip() {
    let mut pkg = DocxPackage::from_entries(Vec::new());
    assert!(!pkg.has_part("word/document.xml"));
    pkg.set_text("word/document.xml", "héllo".to_string());
    assert!(pkg.has_part("word/document.xml"));
    assert_eq!(document_text(&pkg), "héllo");
    pkg.set_text("word/document.xml", "second".to_string());
    assert_eq!(document_text(&pkg), "second");
    assert_eq!(pkg.entries().len(), 1);
}

#[test]
fn package_later_entry_wins() {
    let pkg = DocxPackage::from_entries(vec![
        ("a.xml".to_string(), b"one".to_vec()),
        ("a.xml".to_string(), b"two".to_vec()),
    ]);
    assert_eq!(pkg.entries().len(), 1);
    match pkg.get_text("a.xml") {
        Ok(s) => assert_eq!(s, "two"),
        Err(_) => panic!("part expected"),
    }
}

#[test]
fn get_text_missing_part_is_not_found() {
    let pkg = DocxPackage::from_entries(Vec::new());
    match pkg.get_text("word/document.xml") {
        Err(WordCliError::NotFound(m)) => assert_eq!(m, "文档中缺少必要组件：word/document.xml"),
        _ => panic!("NotFound expected"),
    }
}

#[test]
fn get_text_bad_utf8_is_corrupted() {
    let pkg = DocxPackage::from_entries(vec![("word/document.xml".to_string(), vec![0xff, 0xfe, 0x41])]);
    match pkg.get_text("word/document.xml") {
        Err(WordCliError::CorruptedDocument(m)) => {
            assert_eq!(m, "XML 文本编码解析错误 (word/document.xml): invalid utf-8 sequence of 1 bytes from index 0")
        }
        _ => panic!("CorruptedDocument expected"),
    }
    let pkg = DocxPackage::from_entries(vec![("word/document.xml".to_string(), vec![0x41, 0xE4, 0xB8])]);
    match pkg.get_text("word/document.xml") {
        Err(WordCliError::CorruptedDocument(m)) => {
            assert_eq!(m, "XML 文本编码解析错误 (word/document.xml): incomplete utf-8 byte sequence from index 1")
        }
        _ => panic!("CorruptedDocument expected"),
    }
    let pkg = DocxPackage::from_entries(vec![("word/document.xml".to_string(), vec![0xE4, 0xB8, 0x41])]);
    match pkg.get_text("word/document.xml") {
        Err(WordCliError::CorruptedDocument(m)) => {
            assert_eq!(m, "XML 文本编码解析错误 (word/document.xml): invalid utf-8 sequence of 2 bytes from index 0")
        }
        _ => panic!("CorruptedDocument expected"),
    }
}

#[test]
fn read_paragraphs_range_errors_are_invalid_parameter() {
    let pkg = DocxPackage::from_entries(vec![(
        "word/document.xml".to_string(),
        b"<w:body><w:p>A</w:p><w:p>B</w:p><w:p>C</w:p></w:body>".to_vec(),
    )]);
    let r = read_paragraphs(&pkg, Some("1:2"), None).ok().unwrap();
    assert_eq!(r.total_matched, 2);
    assert_eq!(r.paragraphs[0].index, 1);
    assert_eq!(r.paragraphs[1].text, "C");
    assert!(matches!(read_paragraphs(&pkg, Some("x"), None), Err(WordCliError::InvalidParameter(_))));
}

#[test]
fn pair_forms_agree() {
    let mut a = doc_with_body("<w:p><w:r><w:t>A</w:t></w:r></w:p>");
    let mut b = doc_with_body("<w:p><w:r><w:t>A</w:t></w:r></w:p>");
    let ra = replace_text(&mut a, "o.docx", Some("A"), Some("B&C"), None).ok().unwrap();
    let rb = replace_text(&mut b, "o.docx", None, None, Some("A=B&C")).ok().unwrap();
    assert_eq!(ra.replacements_count, rb.replacements_count);
    assert_eq!(document_text(&a), document_text(&b));
}

#[test]
fn validate_structure_needs_document_part() {
    let empty = DocxPackage::from_entries(Vec::new());
    assert!(matches!(empty.validate_structure(), Err(WordCliError::CorruptedDocument(_))));
    assert!(blank_document().validate_structure().is_ok());
}

#[test]
fn escape_xml_replaces_markup_characters() {
    assert_eq!(escape_xml("a<b>&\"c'"), "a&lt;b&gt;&amp;&quot;c&apos;");
    assert_eq!(escape_xml("plain 文本"), "plain 文本");
    assert_eq!(escape_xml(""), "");
}

#[test]
fn build_run_xml_plain_and_styled() {
    assert_eq!(build_run_xml("x", false, false, false), "<w:r><w:t xml:space=\"preserve\">x</w:t></w:r>");
    assert_eq!(
        build_run_xml("x", true, true, false),
        "<w:r><w:rPr><w:b/><w:i/></w:rPr><w:t xml:space=\"preserve\">x</w:t></w:r>"
    );
    assert_eq!(
        build_run_xml("x", false, false, true),
        "<w:r><w:rPr><w:b/></w:rPr><w:t xml:space=\"preserve\">x</w:t></w:r>"
    );
}

#[test]
fn markdown_heading_and_bold_paragraph() {
    let out = markdown_to_openxml("# Title\n\nHello **b**");
    assert_eq!(
        out,
        "<w:p><w:pPr><w:pStyle w:val=\"Heading1\"/></w:pPr><w:r><w:t xml:space=\"preserve\">Title</w:t></w:r></w:p>\
<w:p><w:pPr><w:pStyle w:val=\"Normal\"/></w:pPr><w:r><w:t xml:space=\"preserve\">Hello </w:t></w:r>\
<w:r><w:rPr><w:b/></w:rPr><w:t xml:space=\"preserve\">b</w:t></w:r></w:p>"
    );
}

#[test]
fn markdown_escapes_text_and_code() {
    let out = markdown_to_openxml("a & `<c>`");
    assert_eq!(
        out,
        "<w:p><w:pPr><w:pStyle w:val=\"Normal\"/></w:pPr><w:r><w:t xml:space=\"preserve\">a &amp; </w:t></w:r>\
<w:r><w:rPr><w:rFonts w:ascii=\"Consolas\" w:hAnsi=\"Consolas\"/></w:rPr><w:t xml:space=\"preserve\">&lt;c&gt;</w:t></w:r></w:p>"
    );
}

#[test]
fn markdown_table_head_cells_are_bold() {
    let out = markdown_to_openxml("| A |\n|---|\n| b |\n");
    assert!(out.starts_with("<w:tbl><w:tblPr>"));
    assert!(out.ends_with("</w:tbl>"));
    assert!(out.contains("<w:tr><w:tc><w:tcPr><w:tcW w:w=\"0\" w:type=\"auto\"/></w:tcPr><w:p><w:r><w:rPr><w:b/></w:rPr><w:t xml:space=\"preserve\">A</w:t></w:r></w:p></w:tc></w:tr>"));
    assert!(out.contains("<w:tr><w:tc><w:tcPr><w:tcW w:w=\"0\" w:type=\"auto\"/></w:tcPr><w:p><w:r><w:t xml:space=\"preserve\">b</w:t></w:r></w:p></w:tc></w:tr>"));
}

#[test]
fn inject_body_goes_before_last_section() {
    let mut pkg = doc_with_body("<w:p/>");
    assert!(inject_body_into_document(&mut pkg, "<w:p>NEW</w:p>").is_ok());
    let doc = document_text(&pkg);
    assert!(doc.contains("<w:p/><w:p>NEW</w:p><w:sectPr>"));
}

#[test]
fn inject_body_without_body_end_is_corrupted() {
    let mut pkg = DocxPackage::from_entries(vec![("word/document.xml".to_string(), b"<w:document/>".to_vec())]);
    assert!(matches!(inject_body_into_document(&mut pkg, "<w:p/>"), Err(WordCliError::CorruptedDocument(_))));
    assert_eq!(document_text(&pkg), "<w:document/>");
}

#[test]
fn parse_range_forms() {
    assert!(matches!(parse_range("2:5", 10), Ok((2, 5))));
    assert!(matches!(parse_range(":", 10), Ok((0, 9))));
    assert!(matches!(parse_range("3", 10), Ok((3, 3))));
    assert!(matches!(parse_range("x", 10), Err(WordCliError::InvalidParameter(_))));
}

#[test]
fn paragraphs_with_styles_and_text() {
    let body = "<w:p><w:pPr><w:pStyle w:val=\"Heading1\"/></w:pPr><w:r><w:t>Intro</w:t></w:r></w:p>\
<w:p><w:r><w:t>Body one</w:t></w:r></w:p><w:p><w:r><w:t>Body two</w:t></w:r></w:p>";
    let pkg = doc_with_body(body);
    let all = match parse_all_paragraphs(&document_text(&pkg)) {
        Ok(v) => v,
        Err(_) => panic!("paragraphs expected"),
    };
    assert_eq!(all.len(), 3);
    assert_eq!(all[0].style_id.as_deref(), Some("Heading1"));
    assert_eq!(all[0].text, "Intro");
    assert_eq!(all[2].index, 2);
    assert_eq!(all[2].text, "Body two");

    let by_range = match read_paragraphs(&pkg, Some("1:2"), None) {
        Ok(r) => r,
        Err(_) => panic!("range read expected"),
    };
    assert_eq!(by_range.total_matched, 2);
    assert_eq!(by_range.paragraphs[0].text, "Body one");

    let by_heading = match read_paragraphs(&pkg, None, Some("Intro")) {
        Ok(r) => r,
        Err(_) => panic!("heading read expected"),
    };
    assert_eq!(by_heading.total_matched, 3);
}

#[test]
fn replace_text_counts_and_escapes() {
    let mut pkg = doc_with_body("<w:p><w:r><w:t>{name} and {name}</w:t></w:r></w:p>");
    let resp = match replace_text(&mut pkg, "out.docx", Some("{name}"), Some("A&B"), None) {
        Ok(r) => r,
        Err(_) => panic!("replacement expected"),
    };
    assert_eq!(resp.replacements_count, 2);
    assert_eq!(resp.message, "已完成文本替换，共命中替换 2 处");
    assert!(document_text(&pkg).contains("A&amp;B and A&amp;B"));
}

#[test]
fn replace_text_without_pairs_is_invalid() {
    let mut pkg = doc_with_body("<w:p/>");
    assert!(matches!(replace_text(&mut pkg, "o.docx", None, None, None), Err(WordCliError::InvalidParameter(_))));
}

#[test]
fn highlight_wraps_keyword() {
    let mut pkg = doc_with_body("<w:p><w:r><w:t>key</w:t></w:r></w:p>");
    let resp = match set_highlight(&mut pkg, "o.docx", "key", "YELLOW") {
        Ok(r) => r,
        Err(_) => panic!("highlight expected"),
    };
    assert_eq!(resp.matches_count, 1);
    assert_eq!(resp.color, "yellow");
    assert_eq!(resp.message, "已成功为关键词 [key] 应用 yellow 高亮，共 1 处");
    assert!(document_text(&pkg)
        .contains("<w:r><w:rPr><w:highlight w:val=\"yellow\"/></w:rPr><w:t xml:space=\"preserve\">key</w:t></w:r>"));
    assert!(!document_text(&pkg).contains("<w:t><w:r>"));
    assert!(matches!(set_highlight(&mut pkg, "o.docx", "", "yellow"), Err(WordCliError::InvalidParameter(_))));
}

#[test]
fn paragraph_xml_with_and_without_style() {
    assert_eq!(
        build_paragraph_xml("a<b", Some("Title")),
        "<w:p><w:pPr><w:pStyle w:val=\"Title\"/></w:pPr><w:r><w:t xml:space=\"preserve\">a&lt;b</w:t></w:r></w:p>"
    );
    assert_eq!(
        build_paragraph_xml("x", None),
        "<w:p><w:pPr></w:pPr><w:r><w:t xml:space=\"preserve\">x</w:t></w:r></w:p>"
    );
}

#[test]
fn insert_then_delete_paragraph() {
    let mut pkg = doc_with_body("<w:p><w:r><w:t>first</w:t></w:r></w:p>");
    let resp = match insert_paragraph(&mut pkg, "o.docx", 0, "zero", None) {
        Ok(r) => r,
        Err(_) => panic!("insert expected"),
    };
    assert_eq!(resp.message, "已在段落索引 0 前插入新段落");
    let paras = match parse_all_paragraphs(&document_text(&pkg)) {
        Ok(v) => v,
        Err(_) => panic!("paragraphs expected"),
    };
    assert_eq!(paras.len(), 2);
    assert_eq!(paras[0].text, "zero");
    assert_eq!(paras[1].text, "first");

    assert!(delete_paragraph(&mut pkg, "o.docx", 0).is_ok());
    let paras = match parse_all_paragraphs(&document_text(&pkg)) {
        Ok(v) => v,
        Err(_) => panic!("paragraphs expected"),
    };
    assert_eq!(paras.len(), 1);
    assert_eq!(paras[0].text, "first");
}

#[test]
fn delete_missing_paragraph_leaves_document() {
    let mut pkg = doc_with_body("<w:p/>");
    let before = document_text(&pkg);
    assert!(delete_paragraph(&mut pkg, "o.docx", 5).is_err());
    assert_eq!(document_text(&pkg), before);
}

#[test]
fn page_layout_landscape_a4() {
    let mut pkg = doc_with_body("<w:p/>");
    let resp = match setup_page_layout(&mut pkg, "o.docx", "Landscape", "a4") {
        Ok(r) => r,
        Err(_) => panic!("page setup expected"),
    };
    assert_eq!(resp.orientation, "landscape");
    assert_eq!(resp.paper_size, "A4");
    let doc = document_text(&pkg);
    assert!(doc.contains("w:orient=\"landscape\""));
    assert!(!doc.contains("<w:pgSz w:w=\"11906\" w:h=\"16838\"/>"));
}

#[test]
fn page_layout_without_document_is_not_found() {
    let mut pkg = DocxPackage::from_entries(Vec::new());
    assert!(matches!(setup_page_layout(&mut pkg, "o.docx", "portrait", "A4"), Err(WordCliError::NotFound(_))));
}

#[test]
fn table_formats() {
    let rows = vec![
        vec!["a".to_string(), "b".to_string()],
        vec!["1".to_string(), "x,y".to_string()],
    ];
    assert_eq!(format_as_markdown(&rows), "| a | b |\n| --- | --- |\n| 1 | x,y |\n");
    assert_eq!(format_as_csv(&rows), "a,b\n1,\"x,y\"\n");
    assert_eq!(format_as_markdown(&Vec::new()), "");
    let quoted = vec![vec!["say \"hi\"".to_string()]];
    assert_eq!(format_as_csv(&quoted), "\"say \"\"hi\"\"\"\n");
}

#[test]
fn read_table_as_json_and_markdown() {
    let pkg = doc_with_body(&table_body());
    let json = match read_table_data(&pkg, 0, "json") {
        Ok(r) => r,
        Err(_) => panic!("table expected"),
    };
    assert_eq!(json.total_rows, 2);
    let data = json.data.unwrap_or_default();
    assert_eq!(data[1][0], "Ann");
    assert_eq!(data[1][1], "30");
    let md = match read_table_data(&pkg, 0, "markdown") {
        Ok(r) => r,
        Err(_) => panic!("table expected"),
    };
    assert_eq!(md.content.unwrap_or_default(), "| Name | Age |\n| --- | --- |\n| Ann | 30 |\n");
    assert!(matches!(read_table_data(&pkg, 3, "json"), Err(WordCliError::NotFound(_))));
}

#[test]
fn edit_cell_insert_and_delete_rows() {
    let mut pkg = doc_with_body(&table_body());
    assert!(set_cell_value(&mut pkg, "o.docx", 0, 1, 1, "31").is_ok());
    let data = match read_table_data(&pkg, 0, "json") {
        Ok(r) => r.data.unwrap_or_default(),
        Err(_) => panic!("table expected"),
    };
    assert_eq!(data[1][1], "31");

    let cells = vec!["Bob".to_string(), "40".to_string()];
    assert!(insert_table_row(&mut pkg, "o.docx", 0, 2, &cells).is_ok());
    let data = match read_table_data(&pkg, 0, "json") {
        Ok(r) => r.data.unwrap_or_default(),
        Err(_) => panic!("table expected"),
    };
    assert_eq!(data.len(), 3);
    assert_eq!(data[2][0], "Bob");

    assert!(delete_table_row(&mut pkg, "o.docx", 0, 0).is_ok());
    let data = match read_table_data(&pkg, 0, "json") {
        Ok(r) => r.data.unwrap_or_default(),
        Err(_) => panic!("table expected"),
    };
    assert_eq!(data.len(), 2);
    assert_eq!(data[0][0], "Ann");
}

#[test]
fn row_xml_escapes_cells() {
    let row = build_row_xml(&["a&b".to_string()]);
    assert!(row.starts_with("<w:tr>"));
    assert!(row.ends_with("</w:tr>"));
    assert!(row.contains("a&amp;b"));
}

#[test]
fn styles_are_listed_with_defaults() {
    let styles = "<w:styles xmlns:w=\"x\"><w:style w:type=\"paragraph\" w:default=\"1\" w:styleId=\"Normal\"><w:name w:val=\"Normal Text\"/></w:style><w:style w:styleId=\"Plain\"></w:style></w:styles>";
    let pkg = DocxPackage::from_entries(vec![("word/styles.xml".to_string(), styles.as_bytes().to_vec())]);
    let resp = match list_styles(&pkg) {
        Ok(r) => r,
        Err(_) => panic!("styles expected"),
    };
    assert_eq!(resp.total, 2);
    assert_eq!(resp.styles[0].id, "Normal");
    assert_eq!(resp.styles[0].name, "Normal Text");
    assert!(resp.styles[0].is_default);
    assert_eq!(resp.styles[1].name, "Plain");
    assert_eq!(resp.styles[1].style_type, "paragraph");
    assert!(!resp.styles[1].is_default);
}

#[test]
fn styles_missing_part_is_not_found() {
    let pkg = DocxPackage::from_entries(Vec::new());
    match list_styles(&pkg) {
        Err(WordCliError::NotFound(m)) => assert_eq!(m, "文档中未找到 word/styles.xml 样式定义文件"),
        _ => panic!("NotFound expected"),
    }
}

#[test]
fn heading_levels_from_style_ids() {
    assert_eq!(detect_heading_level("Heading2"), Some(2));
    assert_eq!(detect_heading_level("heading 3"), Some(3));
    assert_eq!(detect_heading_level("标题 1"), Some(1));
    assert_eq!(detect_heading_level("Normal"), None);
}

#[test]
fn blank_document_create_and_save_as() {
    let pkg = blank_document();
    assert!(pkg.has_part("[Content_Types].xml"));
    assert!(pkg.has_part("_rels/.rels"));
    assert!(document_text(&pkg).contains("<w:body><w:p/><w:sectPr>"));
    let created = match create_document(&pkg, "new.docx", None) {
        Ok(r) => r,
        Err(_) => panic!("create expected"),
    };
    assert_eq!(created.target_file, "new.docx");
    assert!(save_as(&pkg, "copy.docx").is_ok());
    let empty = DocxPackage::from_entries(Vec::new());
    assert!(matches!(create_document(&empty, "x.docx", None), Err(WordCliError::CorruptedDocument(_))));
}

#[test]
fn package_bytes_round_trip() {
    let mut pkg = doc_with_body("<w:p><w:r><w:t>正文</w:t></w:r></w:p>");
    pkg.set_text("word/styles.xml", "<w:styles/>".to_string());
    pkg.put("media/", Vec::new());
    let bytes = match pkg.to_bytes() {
        Ok(b) => b,
        Err(_) => panic!("packing failed"),
    };
    assert_eq!(&bytes[..2], b"PK");
    let back = match DocxPackage::from_file_bytes(&bytes) {
        Ok(p) => p,
        Err(_) => panic!("reopening failed"),
    };
    assert_eq!(document_text(&back), document_text(&pkg));
    assert_eq!(back.get_text("word/styles.xml").ok(), Some("<w:styles/>".to_string()));
    assert!(back.has_part("media/"));
    let files_only = match DocxPackage::from_bytes(&bytes) {
        Ok(p) => p,
        Err(_) => panic!("reading from memory failed"),
    };
    assert!(!files_only.has_part("media/"));
    assert_eq!(document_text(&files_only), document_text(&pkg));
}

#[test]
fn package_bytes_errors() {
    match DocxPackage::from_file_bytes(b"not a zip archive") {
        Err(WordCliError::CorruptedDocument(m)) => assert!(m.starts_with("ZIP包解压或处理异常: ")),
        _ => panic!("expected a corrupted document"),
    }
    match DocxPackage::from_bytes(b"not a zip archive") {
        Err(WordCliError::CorruptedDocument(m)) => assert!(m.starts_with("无法解析内置模板压缩包：")),
        _ => panic!("expected a corrupted document"),
    }
    let other = DocxPackage::from_entries(vec![("a.txt".to_string(), b"x".to_vec())]);
    let bytes = other.to_bytes().ok().unwrap();
    match DocxPackage::from_file_bytes(&bytes) {
        Err(WordCliError::CorruptedDocument(m)) => {
            assert_eq!(m, "非合规 DOCX 文档: 缺少核心组件 'word/document.xml'")
        }
        _ => panic!("expected a missing main part"),
    }
}

use goose_office::word::format::format_paragraph;
use goose_office::word::header_footer::set_header_or_footer;
use goose_office::word::paragraph::append_paragraph;

#[test]
fn format_keeps_run_properties_without_new_ones() {
    let mut pkg = doc_with_body("<w:p><w:r><w:rPr><w:b/></w:rPr><w:t>A</w:t></w:r></w:p>");
    assert!(format_paragraph(&mut pkg, "o.docx", Some(0), None, "all", Some(200), None, None, None, None, false).is_ok());
    let d = document_text(&pkg);
    assert!(d.contains("<w:p><w:pPr><w:ind w:firstLineChars=\"200\"/></w:pPr><w:r><w:rPr><w:b/></w:rPr><w:t>A</w:t></w:r></w:p>"));
    let mut pkg = doc_with_body("<w:p><w:r><w:rPr><w:b/></w:rPr><w:t>A</w:t></w:r></w:p>");
    assert!(format_paragraph(&mut pkg, "o.docx", Some(0), None, "all", None, None, None, None, None, true).is_ok());
    assert!(document_text(&pkg).contains("<w:p><w:r><w:t>A</w:t></w:r></w:p>"));
}

#[test]
fn replace_finds_placeholder_split_over_runs() {
    let mut pkg = doc_with_body("<w:p><w:r><w:t>{{NA</w:t></w:r><w:r><w:t>ME}}</w:t></w:r></w:p>");
    let resp = replace_text(&mut pkg, "o.docx", None, None, Some("{{NAME}}=张三")).ok().unwrap();
    assert_eq!(resp.replacements_count, 1);
    let d = document_text(&pkg);
    assert!(d.contains("<w:p><w:r><w:t>张三</w:t></w:r><w:r><w:t></w:t></w:r></w:p>"));
}

#[test]
fn replace_touches_only_text() {
    let mut pkg = doc_with_body("<w:p><w:r><w:t>w:r stays</w:t></w:r></w:p>");
    let resp = replace_text(&mut pkg, "o.docx", Some("w:r"), Some("X"), None).ok().unwrap();
    assert_eq!(resp.replacements_count, 1);
    let d = document_text(&pkg);
    assert!(d.contains("<w:p><w:r><w:t>X stays</w:t></w:r></w:p>"));
    let before = document_text(&pkg);
    let resp = replace_text(&mut pkg, "o.docx", Some("absent"), Some("X"), None).ok().unwrap();
    assert_eq!(resp.replacements_count, 0);
    assert_eq!(document_text(&pkg), before);
}

#[test]
fn highlight_gives_keyword_its_own_run() {
    let mut pkg = doc_with_body("<w:p><w:r><w:t>a key b</w:t></w:r></w:p>");
    let resp = set_highlight(&mut pkg, "o.docx", "key", "Yellow").ok().unwrap();
    assert_eq!(resp.matches_count, 1);
    assert_eq!(resp.color, "yellow");
    assert!(document_text(&pkg).contains(
        "<w:p><w:r><w:t>a </w:t></w:r><w:r><w:rPr><w:highlight w:val=\"yellow\"/></w:rPr><w:t xml:space=\"preserve\">key</w:t></w:r><w:r><w:t xml:space=\"preserve\"> b</w:t></w:r></w:p>"
    ));
    let before = document_text(&pkg);
    let resp = set_highlight(&mut pkg, "o.docx", "absent", "yellow").ok().unwrap();
    assert_eq!(resp.matches_count, 0);
    assert_eq!(document_text(&pkg), before);
}

#[test]
fn unlink_without_reference_binds_nothing() {
    let mut pkg = doc_with_body("<w:p/>");
    pkg.set_text("[Content_Types].xml", "<Types></Types>".to_string());
    pkg.set_text("word/_rels/document.xml.rels", "<Relationships></Relationships>".to_string());
    let before = document_text(&pkg);
    let resp = set_header_or_footer(&mut pkg, "o.docx", true, None, false, None, true).ok().unwrap();
    assert_eq!(resp.message, "当前节未绑定页眉，无需解除");
    assert_eq!(document_text(&pkg), before);
    assert!(!pkg.has_part("word/header1.xml"));
    assert_eq!(pkg.get_text("[Content_Types].xml").ok().unwrap(), "<Types></Types>");
}

#[test]
fn set_cell_keeps_cell_properties() {
    let mut pkg = DocxPackage::from_entries(vec![(
        "word/document.xml".to_string(),
        b"<w:body><w:tbl><w:tr><w:tc><w:tcPr><w:gridSpan w:val='2'/></w:tcPr><w:p>a</w:p></w:tc></w:tr></w:tbl></w:body>".to_vec(),
    )]);
    assert!(set_cell_value(&mut pkg, "o.docx", 0, 0, 0, "x&y").is_ok());
    assert_eq!(
        document_text(&pkg),
        "<w:body><w:tbl><w:tr><w:tc><w:tcPr><w:gridSpan w:val='2'/></w:tcPr><w:p><w:r><w:t xml:space=\"preserve\">x&amp;y</w:t></w:r></w:p></w:tc></w:tr></w:tbl></w:body>"
    );
    assert!(matches!(set_cell_value(&mut pkg, "o.docx", 0, 0, 1, "v"), Err(WordCliError::InvalidParameter(_))));
    assert!(matches!(set_cell_value(&mut pkg, "o.docx", 1, 0, 0, "v"), Err(WordCliError::InvalidParameter(_))));
}

#[test]
fn page_layout_changes_last_section_only() {
    let mut pkg = DocxPackage::from_entries(vec![(
        "word/document.xml".to_string(),
        b"<w:body><w:p><w:pPr><w:sectPr><w:pgSz w:w='11906' w:h='16838'/></w:sectPr></w:pPr></w:p><w:sectPr><w:pgSz w:w='11906' w:h='16838'/></w:sectPr></w:body>".to_vec(),
    )]);
    let resp = setup_page_layout(&mut pkg, "o.docx", "landscape", "a4").ok().unwrap();
    assert_eq!(resp.orientation, "landscape");
    assert_eq!(resp.paper_size, "A4");
    let once = document_text(&pkg);
    assert_eq!(
        once,
        "<w:body><w:p><w:pPr><w:sectPr><w:pgSz w:w='11906' w:h='16838'/></w:sectPr></w:pPr></w:p><w:sectPr><w:pgSz w:w=\"16838\" w:h=\"11906\" w:orient=\"landscape\"/></w:sectPr></w:body>"
    );
    assert!(setup_page_layout(&mut pkg, "o.docx", "landscape", "a4").is_ok());
    assert_eq!(document_text(&pkg), once);
}

#[test]
fn append_skips_section_break_of_a_paragraph() {
    let mut pkg = DocxPackage::from_entries(vec![(
        "word/document.xml".to_string(),
        b"<w:body><w:p><w:pPr><w:sectPr/></w:pPr></w:p></w:body>".to_vec(),
    )]);
    assert!(append_paragraph(&mut pkg, "o.docx", "X", None).is_ok());
    assert_eq!(
        document_text(&pkg),
        "<w:body><w:p><w:pPr><w:sectPr/></w:pPr></w:p><w:p><w:pPr></w:pPr><w:r><w:t xml:space=\"preserve\">X</w:t></w:r></w:p></w:body>"
    );
}

#[test]
fn inspect_selector_gives_part_of_full_report() {
    let pkg = doc_with_body(&format!("<w:p><w:r><w:t>x</w:t></w:r></w:p>{}", table_body()));
    let full = goose_office::word::inspect::inspect_document(&pkg, None, &Vec::new()).ok().unwrap();
    let part = goose_office::word::inspect::inspect_document(&pkg, Some("tables"), &Vec::new()).ok().unwrap();
    assert!(part.summary.is_none() && part.outline.is_none() && part.images.is_none() && part.highlights.is_none());
    assert_eq!(part.tables.as_ref().unwrap().len(), full.tables.as_ref().unwrap().len());
    assert_eq!(part.tables.unwrap()[0].rows, full.tables.unwrap()[0].rows);
}
