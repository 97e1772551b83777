use std::io::Write;

use goose_office::pdf::chunker::{chunk_document, estimate_tokens, split_by_sliding_window};
use goose_office::pdf::cmap::CMapTable;
use goose_office::pdf::error::PdfCliError;
use goose_office::pdf::extract::{format_as_markdown, is_likely_heading, needs_space, normalize_for_match, resolve_pages_by_heading};
use goose_office::pdf::media::{
    compress_bytes,
    candidate_bytes, ImageCandidate,
    check_render_target, render_dpi, render_response,
    decode_bytes_with_cmap, extract_images_response, image_candidates, image_file_name_exec, image_stream_queue, normalize_path,
    render_page, safe_decompress_stream, PixelKind,
};
use goose_office::pdf::outline::OutlineNode;
use goose_office::pdf::pages::resolve_page_targets;
use goose_office::pdf::transform::{
    check_merge_inputs, check_watermark_text, extract_page_list, extract_pages_response, merge_response, pages_to_remove,
    parse_range, rotate_response, rotated, rotation_targets, to_forward_slashes, watermark_response,
};

fn chars(s: &str) -> Vec<char> {
    s.chars().collect()
}

fn invalid_message(r: Result<Vec<usize>, PdfCliError>) -> String {
    match r {
        Err(PdfCliError::InvalidParameter(m)) => m,
        _ => panic!("expected an invalid-parameter error"),
    }
}

#[test]
fn page_targets() {
    assert_eq!(resolve_page_targets(Some(3), None, 5).ok(), Some(vec![3]));
    assert_eq!(resolve_page_targets(None, Some("ALL"), 3).ok(), Some(vec![1, 2, 3]));
    assert_eq!(resolve_page_targets(None, Some("2:4"), 10).ok(), Some(vec![2, 3, 4]));
    assert_eq!(resolve_page_targets(None, Some(":2"), 10).ok(), Some(vec![1, 2]));
    assert_eq!(resolve_page_targets(None, Some("8:"), 9).ok(), Some(vec![8, 9]));
    assert_eq!(resolve_page_targets(None, Some("0:99"), 3).ok(), Some(vec![1, 2, 3]));
    assert_eq!(resolve_page_targets(None, Some("7"), 9).ok(), Some(vec![7]));
    assert_eq!(resolve_page_targets(None, Some("abc"), 2).ok(), Some(vec![1, 2]));
    assert_eq!(resolve_page_targets(None, None, 2).ok(), Some(vec![1, 2]));
    assert_eq!(invalid_message(resolve_page_targets(Some(6), None, 5)), "指定页码 6 越界，文档共 5 页");
    assert_eq!(invalid_message(resolve_page_targets(None, Some("5:2"), 9)), "无效的页码范围: start(5) > end(2)");
    assert_eq!(invalid_message(resolve_page_targets(None, Some("12"), 9)), "页码 12 越界");
}

#[test]
fn page_targets_stay_in_document() {
    for expr in ["all", "1:3", "3:1", "0:0", "2", "99", "x:y", ":", ""] {
        if let Ok(v) = resolve_page_targets(None, Some(expr), 4) {
            for w in v.windows(2) {
                assert!(w[0] < w[1]);
            }
            for p in v {
                assert!(1 <= p && p <= 4);
            }
        }
    }
}

#[test]
fn transform_ranges() {
    assert_eq!(parse_range("all", 2).ok(), Some(vec![1, 2]));
    assert_eq!(parse_range("2:3", 5).ok(), Some(vec![2, 3]));
    assert_eq!(invalid_message(parse_range("4:1", 5)), "无效范围: 起始页 4 大于 终止页 1");
    assert_eq!(invalid_message(parse_range("9", 5)), "页码 9 越界");
    assert_eq!(invalid_message(parse_range("x", 5)), "无法解析的页码范围表达式: 'x'");
    assert_eq!(invalid_message(rotation_targets(None, None, 45, 3)), "旋转角度必须为 90 的整数倍（例如 90, 180, 270）");
    assert_eq!(invalid_message(rotation_targets(Some(4), None, 90, 3)), "页码 4 越界");
    assert_eq!(rotation_targets(None, None, -90, 3).ok(), Some(vec![1, 2, 3]));
}

#[test]
fn rotation_angles() {
    assert_eq!(rotated(0, 90), 90);
    assert_eq!(rotated(270, 90), 0);
    assert_eq!(rotated(0, -90), 270);
    assert_eq!(rotated(90, 720), 90);
    for c in [0, 90, 180, 270] {
        for a in [-270, -90, 90, 180, 450] {
            for b in [-180, 90, 270] {
                assert_eq!(rotated(rotated(c, a), b), rotated(c, a + b));
            }
        }
        assert_eq!(rotated(c, 360), rotated(c, 0));
    }
}

#[test]
fn cmap_parse_and_decode() {
    let text = "/CIDInit /ProcSet findresource begin\n2 beginbfchar\n<01> <0041>\n<0102> <4E2D>\nendbfchar\n1 beginbfrange\n<02> <04> <0061>\nendbfrange\n1 beginbfrange\n<10> <11> [<0058> <0059>]\nendbfrange\nend";
    let cm = CMapTable::parse_to_unicode(text);
    assert_eq!(cm.decode_bytes(&[1, 3, 4]), "Abc");
    assert_eq!(cm.decode_bytes(&[1, 2]), "中");
    assert_eq!(cm.decode_bytes(&[0x10, 0x11]), "XY");
    assert_eq!(cm.decode_bytes(&[0x7A, 0x05]), "z\u{FFFD}");
}

#[test]
fn empty_cmap_fallbacks() {
    let cm = CMapTable::new();
    assert_eq!(cm.decode_bytes("héllo".as_bytes()), "héllo");
    assert_eq!(cm.decode_bytes(&[0xFE, 0xFF, 0x00, 0x41, 0x4E, 0x2D]), "A中");
    assert_eq!(cm.decode_bytes(&[0x00, 0x41, 0x00, 0x42]), "\u{0}A\u{0}B");
    assert_eq!(cm.decode_bytes(&[0xC3, 0x41]), "?A");
    assert_eq!(cm.decode_bytes(&[0x00, 0xD8]), "\u{D8}");
    assert_eq!(cm.decode_bytes(&[0x00, 0x41, 0x00, 0x42, 0xD8, 0x00]), "AB\u{FFFD}");
}

#[test]
fn cmap_by_font_name() {
    let fonts = vec![("F1".to_string(), CMapTable::parse_to_unicode("1 beginbfchar\n<41> <0042>\nendbfchar"))];
    assert_eq!(decode_bytes_with_cmap(&[0x41], "F1", &fonts), "B");
    assert_eq!(decode_bytes_with_cmap(&[0x41], "F2", &fonts), "A");
}

#[test]
fn token_estimates() {
    assert_eq!(estimate_tokens(0), 0);
    assert_eq!(estimate_tokens(1), 1);
    assert_eq!(estimate_tokens(2), 2);
    assert_eq!(estimate_tokens(3), 2);
    assert_eq!(estimate_tokens(10), 8);
    assert_eq!(estimate_tokens(1000), 750);
}

#[test]
fn sliding_windows() {
    let w = split_by_sliding_window(&chars("abcdefghij"), 4, 1);
    assert_eq!(w, vec!["abcd".to_string(), "defg".to_string(), "ghij".to_string()]);
    let w = split_by_sliding_window(&chars("short"), 10, 2);
    assert_eq!(w, vec!["short".to_string()]);
    let w = split_by_sliding_window(&chars("ab    cd"), 2, 0);
    assert_eq!(w, vec!["ab".to_string(), "cd".to_string()]);
    for size in 1..6usize {
        for ov in 0..7usize {
            for piece in split_by_sliding_window(&chars("the quick brown fox"), size, ov) {
                assert!(piece.chars().count() <= size);
                assert!(!piece.is_empty());
            }
        }
    }
}

fn node(title: &str, page: Option<usize>, children: Vec<OutlineNode>) -> OutlineNode {
    OutlineNode { level: 1, title: title.to_string(), target_page: page, children }
}

#[test]
fn chunks_by_heading() {
    let outline = Some(vec![node("第一章", Some(1), vec![node("1.1 背景", Some(2), vec![])]), node("第二章", Some(3), vec![])]);
    let pages = vec![(1usize, "one".to_string()), (2, "two".to_string()), (3, "three".to_string())];
    let r = chunk_document("d.pdf", "heading", 500, 50, &outline, 3, &pages);
    assert_eq!(r.status, "success");
    assert_eq!(r.total_chunks, 3);
    assert_eq!(r.chunks[0].heading_path, "第一章");
    assert_eq!(r.chunks[0].page_range, [1, 1]);
    assert_eq!(r.chunks[1].heading_path, "第一章 / 1.1 背景");
    assert_eq!(r.chunks[1].text, "two");
    assert_eq!(r.chunks[2].page_range, [3, 3]);
    assert_eq!(r.chunks[2].char_count, 5);
    assert_eq!(r.chunks[2].token_estimate, 4);
    for (i, c) in r.chunks.iter().enumerate() {
        assert_eq!(c.chunk_id, i);
    }
}

#[test]
fn chunks_by_window() {
    let pages = vec![(1usize, "abcdef".to_string()), (2, "ghij".to_string())];
    let r = chunk_document("d.pdf", "sliding", 5, 9, &None, 2, &pages);
    assert_eq!(r.strategy, "sliding");
    assert_eq!(r.chunks[0].heading_path, "Document / SlidingWindow");
    assert_eq!(r.chunks[0].page_range, [1, 2]);
    assert_eq!(r.total_chunks, 3);
    assert_eq!(r.chunks[0].text, "abcde");
    assert_eq!(r.chunks[1].text, "ef\n\ng");
    assert_eq!(r.chunks[2].text, "ghij");
}

#[test]
fn heading_lookup() {
    let outline = vec![node("第一章 项目概述", Some(1), vec![]), node("第二章 技术方案", Some(4), vec![]), node("附录", Some(9), vec![])];
    assert_eq!(resolve_pages_by_heading(&outline, "第二章", 10).ok(), Some(vec![4, 5, 6, 7, 8]));
    assert_eq!(resolve_pages_by_heading(&outline, "附录", 10).ok(), Some(vec![9, 10]));
    match resolve_pages_by_heading(&outline, "结论", 10) {
        Err(PdfCliError::NotFound(m)) => assert_eq!(m, "未在文档大纲中检索到标题: '结论'"),
        _ => panic!("expected NotFound"),
    }
    match resolve_pages_by_heading(&Vec::new(), "x", 10) {
        Err(PdfCliError::NotFound(m)) => assert_eq!(m, "该文档未包含书签大纲(Outlines)，无法按章节标题定向抽取"),
        _ => panic!("expected NotFound"),
    }
}

#[test]
fn text_helpers() {
    assert_eq!(normalize_for_match("第1章 Intro!"), chars("第1章intro"));
    assert!(needs_space(&chars("abc"), &chars("1d")));
    assert!(!needs_space(&chars("abc"), &chars(" d")));
    assert!(!needs_space(&chars(""), &chars("d")));
    assert!(is_likely_heading(&chars("第三章 技术方案")));
    assert!(is_likely_heading(&chars("1.2 Scope")));
    assert!(!is_likely_heading(&chars("1 Scope")));
    assert!(!is_likely_heading(&chars("12.a Scope")));
    assert_eq!(format_as_markdown("第一章 总则\n  body text  \n\n1.1 Scope"), "\n### 第一章 总则\n\nbody text\n\n\n### 1.1 Scope\n");
    assert_eq!(normalize_path("  \"C:\\docs\\a.pdf\"  "), "C:/docs/a.pdf");
}

#[test]
fn errors_and_rendering() {
    let e = PdfCliError::io("disk".to_string()).to_error_response();
    assert_eq!((e.status.as_str(), e.error_type.as_str(), e.message.as_str()), ("error", "IoError", "disk"));
    assert_eq!(PdfCliError::corrupted_document("x".to_string()).to_error_response().error_type, "CorruptedDocumentError");
    assert_eq!(PdfCliError::encrypted_pdf("x".to_string()).to_error_response().error_type, "EncryptedPdfError");
    assert_eq!(PdfCliError::invalid_parameter("x".to_string()).to_error_response().error_type, "InvalidParameterError");
    assert_eq!(PdfCliError::not_found("x".to_string()).to_error_response().error_type, "NotFoundError");
    assert_eq!(PdfCliError::font_mapping("x".to_string()).to_error_response().error_type, "FontMappingError");
    assert_eq!(PdfCliError::layout_failed("x".to_string()).to_error_response().error_type, "LayoutAnalysisError");
    assert_eq!(PdfCliError::unsupported("x".to_string()).to_error_response().error_type, "UnsupportedOperationError");
    match render_page("a.pdf", 1, 300, "out.png") {
        Err(PdfCliError::UnsupportedOperation(m)) => assert_eq!(m, "页面渲染仅支持Windows"),
        _ => panic!("expected UnsupportedOperation"),
    }
}

#[test]
fn image_file_names_are_padded() {
    assert_eq!(image_file_name_exec(1, 5, "png"), "img_p1_005.png");
    assert_eq!(image_file_name_exec(12, 42, "jpg"), "img_p12_042.jpg");
    assert_eq!(image_file_name_exec(2, 1234, "png"), "img_p2_1234.png");
}

#[test]
fn stream_bytes_inflate_flate_streams() {
    let mut enc = flate2::write::ZlibEncoder::new(Vec::new(), flate2::Compression::default());
    enc.write_all(b"hello pixels").unwrap();
    let packed = enc.finish().unwrap();
    let flate = vec!["FlateDecode".to_string()];
    assert_eq!(safe_decompress_stream(&flate, &packed, None), Some(b"hello pixels".to_vec()));
    assert_eq!(safe_decompress_stream(&flate, &packed, Some(vec![7])), Some(vec![7]));
    assert_eq!(safe_decompress_stream(&Vec::new(), &packed, None), Some(packed.clone()));
    assert_eq!(safe_decompress_stream(&vec!["DCTDecode".to_string()], &vec![1, 2], None), Some(vec![1, 2]));
    assert_eq!(safe_decompress_stream(&vec!["Fl".to_string()], &vec![1, 2, 3], None), None);
}

#[test]
fn image_candidates_in_order() {
    let jpeg = vec![0xFF, 0xD8, 0xFF, 0xE0, 0x00];
    let c = image_candidates(1, 0, Some(1), Some(1), &jpeg, &None, &None);
    assert_eq!(c.len(), 1);
    assert_eq!(c[0].file_name, "img_p1_000.jpg");
    assert_eq!(c[0].format, "jpg");
    assert!(c[0].kind == PixelKind::Jpeg);
    assert_eq!(c[0].bytes, jpeg);

    let raw = Some(vec![1, 0, 9, 1, 2, 3]);
    let palette = Some(vec![10, 11, 12, 20, 21, 22]);
    let c = image_candidates(3, 7, Some(2), Some(1), &vec![0], &raw, &palette);
    assert_eq!(c.len(), 3);
    assert_eq!(c[0].file_name, "img_p3_007.png");
    assert!(c[0].kind == PixelKind::Rgb);
    assert_eq!(c[0].bytes, vec![20, 21, 22, 10, 11, 12]);
    assert!(c[1].kind == PixelKind::Rgb);
    assert_eq!(c[1].bytes, vec![1, 0, 9, 1, 2, 3]);
    assert!(c[2].kind == PixelKind::Gray);
    assert_eq!(c[2].bytes, vec![1, 0]);

    let short = Some(vec![5]);
    let c = image_candidates(1, 1, Some(2), Some(1), &vec![0], &short, &Some(vec![1, 2, 3]));
    assert_eq!(c.len(), 1);
    assert_eq!(c[0].bytes, vec![0, 0, 0, 0, 0, 0]);

    assert!(image_candidates(1, 1, Some(0), Some(4), &jpeg, &raw, &None).is_empty());
    assert!(image_candidates(1, 1, None, Some(4), &jpeg, &raw, &None).is_empty());
}

#[test]
fn image_streams_queued_once() {
    let pages = vec![(1usize, vec![(5u32, 0u16), (6, 0)]), (2, vec![(5, 0), (7, 0)])];
    let others = vec![(6u32, 0u16), (9, 0)];
    let all = match image_stream_queue(None, 2, &pages, &others) {
        Ok(v) => v,
        Err(_) => panic!("queue expected"),
    };
    assert_eq!(all, vec![(1, (5, 0)), (1, (6, 0)), (2, (7, 0)), (1, (9, 0))]);
    let second = match image_stream_queue(Some(2), 2, &pages, &others) {
        Ok(v) => v,
        Err(_) => panic!("queue expected"),
    };
    assert_eq!(second, vec![(2, (5, 0)), (2, (7, 0))]);
    match image_stream_queue(Some(3), 2, &pages, &others) {
        Err(PdfCliError::InvalidParameter(m)) => assert_eq!(m, "指定页码 3 越界，文档总页数: 2"),
        _ => panic!("expected an invalid-parameter error"),
    }
    let r = extract_images_response("a.pdf", "out", Vec::new());
    assert_eq!(r.total_images, 0);
    assert_eq!(r.status, "success");
}

#[test]
fn transform_outcomes() {
    assert!(matches!(check_merge_inputs(1), Err(PdfCliError::InvalidParameter(_))));
    assert!(check_merge_inputs(2).is_ok());
    let m = merge_response(3, 12, "out\\all.pdf");
    assert_eq!(m.output_file, "out/all.pdf");
    assert_eq!(m.message, "已成功将 3 个文档合并为 12 页");
    assert_eq!(m.affected_pages, 12);
    let e = extract_pages_response(&vec![1, 2, 5], "x.pdf");
    assert_eq!(e.message, "已提取第 [1, 2, 5] 页到新文件");
    assert_eq!(e.affected_pages, 3);
    let r = rotate_response(2, -90, "r.pdf");
    assert_eq!(r.message, "已成功将 2 个页面旋转 -90 度");
    assert_eq!(rotate_response(1, 270, "r.pdf").message, "已成功将 1 个页面旋转 270 度");
    assert_eq!(to_forward_slashes("a\\b\\c"), "a/b/c");
}

#[test]
fn extract_page_list_needs_pages() {
    assert_eq!(extract_page_list("2:3", 5).ok(), Some(vec![2, 3]));
    match extract_page_list("all", 0) {
        Err(PdfCliError::InvalidParameter(m)) => assert_eq!(m, "页码范围 'all' 未命中任何有效页面"),
        _ => panic!("expected an invalid-parameter error"),
    }
    assert!(matches!(extract_page_list("9", 5), Err(PdfCliError::InvalidParameter(_))));
    assert_eq!(pages_to_remove(&vec![1, 2, 3, 4], &vec![2, 4]), vec![1, 3]);
}

#[test]
fn watermark_text_and_outcome() {
    assert!(matches!(check_watermark_text("   "), Err(PdfCliError::InvalidParameter(_))));
    assert!(check_watermark_text(" 机密 ").is_ok());
    let w = watermark_response("a\\b.pdf", 4, "机密");
    assert_eq!(w.output_file, "a/b.pdf");
    assert_eq!(w.watermarked_pages, 4);
    assert_eq!(w.text, "机密");
}

#[test]
fn render_decisions() {
    assert_eq!(render_dpi(0), 300);
    assert_eq!(render_dpi(150), 150);
    assert!(check_render_target(1, 3).is_ok());
    assert!(check_render_target(3, 3).is_ok());
    match check_render_target(0, 3) {
        Err(PdfCliError::InvalidParameter(m)) => assert_eq!(m, "页码 0 超出范围，总页数 3"),
        _ => panic!("expected an invalid page"),
    }
    assert!(matches!(check_render_target(4, 3), Err(PdfCliError::InvalidParameter(_))));
    let r = render_response("a.pdf", 2, 300, 2480, 3508, "out\\p2.png");
    assert_eq!(r.output_file, "out/p2.png");
    assert_eq!((r.page, r.dpi, r.width, r.height), (2, 300, 2480, 3508));
}

fn candidate(kind: PixelKind, bytes: Vec<u8>) -> ImageCandidate {
    ImageCandidate { file_name: "x".to_string(), format: "png".to_string(), kind, bytes }
}

#[test]
fn candidate_file_bytes() {
    let jpeg = candidate(PixelKind::Jpeg, vec![0xFF, 0xD8, 1, 2]);
    assert_eq!(candidate_bytes(&jpeg, 9, 9), Some(vec![0xFF, 0xD8, 1, 2]));
    let rgb = candidate(PixelKind::Rgb, vec![10, 20, 30, 40, 50, 60]);
    let png = candidate_bytes(&rgb, 2, 1).unwrap();
    assert_eq!(&png[..8], b"\x89PNG\r\n\x1a\n");
    let longer = candidate(PixelKind::Rgb, vec![10, 20, 30, 40, 50, 60, 70]);
    assert_eq!(candidate_bytes(&longer, 2, 1), Some(png));
    assert_eq!(candidate_bytes(&rgb, 3, 1), None);
    let gray = candidate(PixelKind::Gray, vec![0, 255]);
    assert!(candidate_bytes(&gray, 2, 1).unwrap().starts_with(b"\x89PNG"));
    assert_eq!(candidate_bytes(&gray, 2, 2), None);
}

#[test]
fn compressed_streams_inflate_back() {
    let data: Vec<u8> = (0..2000u32).map(|i| (i % 7) as u8).collect();
    let z = compress_bytes(&data);
    assert_eq!(z[0], 0x78);
    assert!(z.len() < data.len());
    let back = safe_decompress_stream(&vec!["FlateDecode".to_string()], &z, None).unwrap();
    assert_eq!(back, data);
}

#[test]
fn page_ranges_with_comma_lists() {
    assert_eq!(goose_office::pdf::transform::parse_range("2,4", 5).ok().unwrap(), vec![2, 4]);
    assert_eq!(goose_office::pdf::transform::parse_range("1:3", 5).ok().unwrap(), vec![1, 2, 3]);
    assert_eq!(goose_office::pdf::transform::parse_range("all", 5).ok().unwrap(), vec![1, 2, 3, 4, 5]);
    assert!(matches!(goose_office::pdf::transform::parse_range("6", 5), Err(PdfCliError::InvalidParameter(_))));
    assert!(matches!(goose_office::pdf::transform::parse_range("2,9", 5), Err(PdfCliError::InvalidParameter(_))));
    assert!(matches!(goose_office::pdf::transform::parse_range("2,x", 5), Err(PdfCliError::InvalidParameter(_))));
}
