use vstd::prelude::*;
use vstd::utf8::encode_utf8;

use crate::text::{
    decimal, extend_chars, find_first, find_last, find_str, insert_chars, insert_text, push_decimal,
    push_str, rfind_str, str_chars, string_from_chars,
};
use crate::word::content::opt_str;
use crate::word::error::WordCliError;
use crate::word::package::{document_part, escape_spec, escape_xml, part_text, DocxPackage};
use crate::word::rewrite::{
    insert_at, insert_before_paragraph, law_delete_undoes_insert, lemma_remove_by_view, one_paragraph, paragraph_start,
    remove_paragraph, remove_paragraph_spec, restyle_paragraph, restyle_spec,
};
use crate::word::xml::{parsed_as, raw_concat, tokenize, tokens_view, xml_events, XmlToken};

verus! {

/// The outcome of a paragraph operation.
pub struct ParaOpResponse {
    pub status: String,
    pub command: String,
    pub affected_index: usize,
    pub affected_count: Option<usize>,
    pub file: String,
    pub message: String,
}

/// The outcome of appending another document's body.
pub struct MergeResponse {
    pub status: String,
    pub command: String,
    pub base_file: String,
    pub appended_file: String,
    pub message: String,
}

/// A paragraph holding one run of text, with an optional style.
pub open spec fn paragraph_xml_spec(text: Seq<char>, style: Option<Seq<char>>) -> Seq<char> {
    "<w:p><w:pPr>"@ + (match style {
        Some(s) => "<w:pStyle w:val=\""@ + s + "\"/>"@,
        None => Seq::empty(),
    }) + "</w:pPr><w:r><w:t xml:space=\"preserve\">"@ + escape_spec(text) + "</w:t></w:r></w:p>"@
}

pub fn build_paragraph_xml(text: &str, style_id: Option<&str>) -> (r: String)
    ensures
        r@ == paragraph_xml_spec(text@, opt_str(style_id)),
{
    let mut out = "<w:p><w:pPr>".to_owned();
    match style_id {
        Some(s) => {
            push_str(&mut out, "<w:pStyle w:val=\"");
            push_str(&mut out, s);
            push_str(&mut out, "\"/>");
        },
        None => {},
    }
    push_str(&mut out, "</w:pPr><w:r><w:t xml:space=\"preserve\">");
    push_str(&mut out, escape_xml(text).as_str());
    push_str(&mut out, "</w:t></w:r></w:p>");
    out
}

/// The document text and its token stream, or the error that stops the
/// operation.
fn body_tokens(pkg: &DocxPackage, trim: bool) -> (r: Result<(String, Vec<XmlToken>), WordCliError>)
    ensures
        r matches Ok(p) ==> part_text(pkg@, document_part()) == Ok::<Seq<char>, int>(p.0@) && parsed_as(p.0@, trim, p.1@),
        part_text(pkg@, document_part()) == Err::<Seq<char>, int>(0) ==> (r matches Err(e) && e is NotFound),
        part_text(pkg@, document_part()) == Err::<Seq<char>, int>(1) ==> (r matches Err(e) && e is CorruptedDocument),
        part_text(pkg@, document_part()) matches Ok(d) ==> match xml_events(d, trim) {
            Ok(_) => r is Ok,
            Err(m) => r matches Err(WordCliError::XmlParseError(x)) && x@ == m,
        },
{
    let doc = pkg.get_text("word/document.xml")?;
    match tokenize(doc.as_str(), trim) {
        Ok(ts) => Ok((doc, ts)),
        Err(m) => Err(WordCliError::XmlParseError(m)),
    }
}

/// Inserts a paragraph before paragraph number `target_idx` of the body.
/// The caller writes the package out.
pub fn insert_paragraph(pkg: &mut DocxPackage, file_path: &str, target_idx: usize, text: &str, style_id: Option<&str>) -> (r: Result<ParaOpResponse, WordCliError>)
    ensures
        part_text(old(pkg)@, document_part()) matches Ok(d) ==> match xml_events(d, false) {
            Err(m) => r matches Err(WordCliError::XmlParseError(x)) && x@ == m,
            Ok(_) => exists|ts: Seq<XmlToken>| #[trigger] parsed_as(d, false, ts) && match paragraph_start(ts, target_idx as nat) {
                Some(k) => r is Ok
                    && final(pkg)@ == old(pkg)@.insert(document_part(), encode_utf8(insert_at(ts, k, paragraph_xml_spec(text@, opt_str(style_id))))),
                None => r matches Err(WordCliError::InvalidParameter(x))
                    && x@ == "段落索引越界: target_idx ("@ + decimal(target_idx as nat) + ") 超出文档最大段落数"@,
            },
        },
        r matches Ok(resp) ==> resp.status@ == "success"@ && resp.command@ == "insert-para"@ && resp.affected_index == target_idx
            && resp.affected_count == Some(1usize) && resp.file@ == file_path@
            && resp.message@ == "已在段落索引 "@ + decimal(target_idx as nat) + " 前插入新段落"@,
        r is Err ==> final(pkg)@ == old(pkg)@,
        part_text(old(pkg)@, document_part()) == Err::<Seq<char>, int>(0) ==> (r matches Err(e) && e is NotFound),
        part_text(old(pkg)@, document_part()) == Err::<Seq<char>, int>(1) ==> (r matches Err(e) && e is CorruptedDocument),
{
    let (doc, ts) = body_tokens(pkg, false)?;
    assert(parsed_as(doc@, false, ts@));
    let frag = build_paragraph_xml(text, style_id);
    match insert_before_paragraph(&ts, target_idx, str_chars(frag.as_str()).as_slice()) {
        None => {
            let mut msg = "段落索引越界: target_idx (".to_owned();
            push_decimal(&mut msg, target_idx);
            push_str(&mut msg, ") 超出文档最大段落数");
            Err(WordCliError::InvalidParameter(msg))
        },
        Some(out) => {
            pkg.set_text("word/document.xml", string_from_chars(out.as_slice()));
            let mut msg = "已在段落索引 ".to_owned();
            push_decimal(&mut msg, target_idx);
            push_str(&mut msg, " 前插入新段落");
            Ok(ParaOpResponse {
                status: "success".to_owned(),
                command: "insert-para".to_owned(),
                affected_index: target_idx,
                affected_count: Some(1),
                file: file_path.to_owned(),
                message: msg,
            })
        },
    }
}

/// Deletes paragraph number `target_idx` of the body. The caller writes the
/// package out.
pub fn delete_paragraph(pkg: &mut DocxPackage, file_path: &str, target_idx: usize) -> (r: Result<ParaOpResponse, WordCliError>)
    ensures
        part_text(old(pkg)@, document_part()) matches Ok(d) ==> match xml_events(d, false) {
            Err(m) => r matches Err(WordCliError::XmlParseError(x)) && x@ == m,
            Ok(_) => exists|ts: Seq<XmlToken>| #[trigger] parsed_as(d, false, ts) && match paragraph_start(ts, target_idx as nat) {
                Some(k) => r is Ok && final(pkg)@ == old(pkg)@.insert(document_part(), encode_utf8(remove_paragraph_spec(ts, k))),
                None => r matches Err(WordCliError::InvalidParameter(x))
                    && x@ == "要删除的段落索引不存在: "@ + decimal(target_idx as nat),
            },
        },
        r matches Ok(resp) ==> resp.status@ == "success"@ && resp.command@ == "delete-para"@ && resp.affected_index == target_idx
            && resp.affected_count == Some(1usize) && resp.file@ == file_path@
            && resp.message@ == "已删除索引为 "@ + decimal(target_idx as nat) + " 的段落"@,
        r is Err ==> final(pkg)@ == old(pkg)@,
        part_text(old(pkg)@, document_part()) == Err::<Seq<char>, int>(0) ==> (r matches Err(e) && e is NotFound),
        part_text(old(pkg)@, document_part()) == Err::<Seq<char>, int>(1) ==> (r matches Err(e) && e is CorruptedDocument),
{
    let (doc, ts) = body_tokens(pkg, false)?;
    assert(parsed_as(doc@, false, ts@));
    match remove_paragraph(&ts, target_idx) {
        None => {
            let mut msg = "要删除的段落索引不存在: ".to_owned();
            push_decimal(&mut msg, target_idx);
            Err(WordCliError::InvalidParameter(msg))
        },
        Some(out) => {
            pkg.set_text("word/document.xml", string_from_chars(out.as_slice()));
            let mut msg = "已删除索引为 ".to_owned();
            push_decimal(&mut msg, target_idx);
            push_str(&mut msg, " 的段落");
            Ok(ParaOpResponse {
                status: "success".to_owned(),
                command: "delete-para".to_owned(),
                affected_index: target_idx,
                affected_count: Some(1),
                file: file_path.to_owned(),
                message: msg,
            })
        },
    }
}

/// Gives paragraph number `target_idx` the style `style_id` (nothing
/// changes when there is no such paragraph). The caller writes the package out.
pub fn apply_style_to_paragraph(pkg: &mut DocxPackage, file_path: &str, target_idx: usize, style_id: &str) -> (r: Result<ParaOpResponse, WordCliError>)
    ensures
        part_text(old(pkg)@, document_part()) matches Ok(d) ==> match xml_events(d, false) {
            Err(m) => r matches Err(WordCliError::XmlParseError(x)) && x@ == m,
            Ok(_) => r is Ok && exists|ts: Seq<XmlToken>| #[trigger] parsed_as(d, false, ts)
                && final(pkg)@ == old(pkg)@.insert(document_part(), encode_utf8(restyle_spec(ts, target_idx as nat, style_id@))),
        },
        r matches Ok(resp) ==> resp.status@ == "success"@ && resp.command@ == "apply-style"@ && resp.affected_index == target_idx
            && resp.affected_count == Some(1usize) && resp.file@ == file_path@
            && resp.message@ == "已将段落 "@ + decimal(target_idx as nat) + " 样式设置为 ["@ + style_id@ + "]"@,
        r is Err ==> final(pkg)@ == old(pkg)@,
        part_text(old(pkg)@, document_part()) == Err::<Seq<char>, int>(0) ==> (r matches Err(e) && e is NotFound),
        part_text(old(pkg)@, document_part()) == Err::<Seq<char>, int>(1) ==> (r matches Err(e) && e is CorruptedDocument),
{
    let (doc, ts) = body_tokens(pkg, false)?;
    assert(parsed_as(doc@, false, ts@));
    let out = restyle_paragraph(&ts, target_idx, style_id);
    pkg.set_text("word/document.xml", string_from_chars(out.as_slice()));
    let mut msg = "已将段落 ".to_owned();
    push_decimal(&mut msg, target_idx);
    push_str(&mut msg, " 样式设置为 [");
    push_str(&mut msg, style_id);
    push_str(&mut msg, "]");
    Ok(ParaOpResponse {
        status: "success".to_owned(),
        command: "apply-style".to_owned(),
        affected_index: target_idx,
        affected_count: Some(1),
        file: file_path.to_owned(),
        message: msg,
    })
}

/// Where content is added at the end of a body: before the last section
/// properties that precede the last `</w:body>` when they stand at the top
/// level of the body (no `</w:pPr>` follows them, so they are not the
/// section break of a paragraph), else before `</w:body>`; `None` when there
/// is no `</w:body>`.
pub open spec fn append_point(doc: Seq<char>) -> Option<int> {
    match find_last(doc, "</w:body>"@) {
        None => None,
        Some(b) => match find_last(doc.take(b), "<w:sectPr"@) {
            Some(s) => if find_first(doc.subrange(s, b), "</w:pPr>"@) is None {
                Some(s)
            } else {
                Some(b)
            },
            None => Some(b),
        },
    }
}

fn take_chars(s: &[char], n: usize) -> (r: Vec<char>)
    requires
        n <= s.len(),
    ensures
        r@ == s@.take(n as int),
{
    let mut r: Vec<char> = Vec::new();
    let mut i: usize = 0;
    while i < n
        invariant
            i <= n <= s.len(),
            r@ == s@.take(i as int),
        decreases n - i,
    {
        r.push(s[i]);
        i += 1;
    }
    r
}

/// Appends a paragraph at the end of the body. The caller writes the
/// package out.
pub fn append_paragraph(pkg: &mut DocxPackage, file_path: &str, text: &str, style_id: Option<&str>) -> (r: Result<ParaOpResponse, WordCliError>)
    ensures
        match part_text(old(pkg)@, document_part()) {
            Err(code) => (r matches Err(e) && (if code == 0 { e is NotFound } else { e is CorruptedDocument })) && final(pkg)@ == old(pkg)@,
            Ok(doc) => match append_point(doc) {
                None => (r matches Err(e) && e is CorruptedDocument) && final(pkg)@ == old(pkg)@,
                Some(p) => {
                    &&& r matches Ok(resp)
                    &&& resp.status@ == "success"@ && resp.command@ == "append-para"@ && resp.affected_index == 0
                    &&& resp.affected_count == Some(1usize) && resp.file@ == file_path@
                    &&& resp.message@ == "已在文档末尾追加段落"@
                    &&& final(pkg)@ == old(pkg)@.insert(document_part(), encode_utf8(insert_text(doc, p, paragraph_xml_spec(text@, opt_str(style_id)))))
                },
            },
        },
{
    let doc_xml = pkg.get_text("word/document.xml")?;
    let doc = str_chars(doc_xml.as_str());
    let frag = build_paragraph_xml(text, style_id);
    let pos = match rfind_str(doc.as_slice(), "</w:body>") {
        None => return Err(WordCliError::CorruptedDocument("未找到有效的 </w:body> 结构".to_owned())),
        Some(b) => {
            let before = take_chars(doc.as_slice(), b);
            match rfind_str(before.as_slice(), "<w:sectPr") {
                Some(s) => {
                    let tail = crate::pdf::pages::sub_chars(doc.as_slice(), s, b);
                    if find_str(tail.as_slice(), "</w:pPr>").is_none() {
                        s
                    } else {
                        b
                    }
                },
                None => b,
            }
        },
    };
    let out = insert_chars(doc.as_slice(), pos, str_chars(frag.as_str()).as_slice());
    pkg.set_text("word/document.xml", string_from_chars(out.as_slice()));
    Ok(ParaOpResponse {
        status: "success".to_owned(),
        command: "append-para".to_owned(),
        affected_index: 0,
        affected_count: Some(1),
        file: file_path.to_owned(),
        message: "已在文档末尾追加段落".to_owned(),
    })
}


/// Where the content of a body ends: at its last section properties, else
/// at `</w:body>`, else at the end of the text.
pub open spec fn body_content_end(x: Seq<char>) -> int {
    match find_last(x, "<w:sectPr"@) {
        Some(s) => s,
        None => match find_last(x, "</w:body>"@) {
            Some(b) => b,
            None => x.len() as int,
        },
    }
}

/// The body content of a document to append does not end before it begins
/// (the slice between them is well-formed).
pub open spec fn merge_input_spec(m: Map<Seq<char>, Seq<u8>>) -> bool {
    match part_text(m, document_part()) {
        Ok(x) => match find_first(x, "<w:body>"@) {
            Some(i) => i + 8 <= body_content_end(x),
            None => true,
        },
        Err(_) => true,
    }
}

/// Where appended content goes in the base document: before its last
/// section properties, else before `</w:body>`.
pub open spec fn merge_point(x: Seq<char>) -> Option<int> {
    match find_last(x, "<w:sectPr"@) {
        Some(s) => Some(s),
        None => match find_last(x, "</w:body>"@) {
            Some(b) => Some(b),
            None => None,
        },
    }
}

fn body_content_end_exec(x: &[char]) -> (r: usize)
    ensures
        r as int == body_content_end(x@),
        r <= x.len(),
{
    match rfind_str(x, "<w:sectPr") {
        Some(s) => s,
        None => match rfind_str(x, "</w:body>") {
            Some(b) => b,
            None => x.len(),
        },
    }
}

/// Tells whether `merge_documents` can take this document as the one to append.
pub fn merge_input_ok(append_pkg: &DocxPackage) -> (b: bool)
    ensures
        b == merge_input_spec(append_pkg@),
{
    match append_pkg.get_text("word/document.xml") {
        Err(_) => true,
        Ok(t) => {
            let x = str_chars(t.as_str());
            match find_str(x.as_slice(), "<w:body>") {
                None => true,
                Some(i) => {
                    proof {
                        reveal_strlit("<w:body>");
                    }
                    let e = body_content_end_exec(x.as_slice());
                    i + 8 <= e
                },
            }
        },
    }
}

#[verifier::rlimit(40)]
/// Appends the body content of another document at the end of the base
/// document's body. The caller writes the base package out.
pub fn merge_documents(base_pkg: &mut DocxPackage, base_path: &str, append_pkg: &DocxPackage, append_path: &str) -> (r: Result<MergeResponse, WordCliError>)
    requires
        merge_input_spec(append_pkg@),
    ensures
        r is Err ==> final(base_pkg)@ == old(base_pkg)@,
        match part_text(append_pkg@, document_part()) {
            Err(code) => r matches Err(e) && (if code == 0 { e is NotFound } else { e is CorruptedDocument }),
            Ok(ax) => match find_first(ax, "<w:body>"@) {
                None => r matches Err(e) && e is CorruptedDocument,
                Some(i) => match part_text(old(base_pkg)@, document_part()) {
                    Err(code) => r matches Err(e) && (if code == 0 { e is NotFound } else { e is CorruptedDocument }),
                    Ok(bx) => match merge_point(bx) {
                        None => r matches Err(e) && e is CorruptedDocument,
                        Some(p) => {
                            &&& r matches Ok(resp)
                            &&& resp.status@ == "success"@ && resp.command@ == "merge"@
                            &&& resp.base_file@ == base_path@ && resp.appended_file@ == append_path@
                            &&& resp.message@ == "文档合并完成"@
                            &&& final(base_pkg)@ == old(base_pkg)@.insert(document_part(), encode_utf8(insert_text(bx, p, ax.subrange(i + 8, body_content_end(ax)))))
                        },
                    },
                },
            },
        },
{
    let append_xml = append_pkg.get_text("word/document.xml")?;
    let ax = str_chars(append_xml.as_str());
    let i = match find_str(ax.as_slice(), "<w:body>") {
        Some(i) => {
            proof {
                reveal_strlit("<w:body>");
            }
            assert(crate::text::occurs_at(ax@, "<w:body>"@, i as int));
            assert(i + 8 <= ax.len());
            i
        },
        None => return Err(WordCliError::CorruptedDocument("待合并文档缺少 <w:body> 节点".to_owned())),
    };
    proof {
        reveal_strlit("<w:body>");
    }
    assert(part_text(append_pkg@, document_part()) == Ok::<Seq<char>, int>(ax@));
    assert(find_first(ax@, "<w:body>"@) == Some(i as int));
    let start = i + 8;
    let end = body_content_end_exec(ax.as_slice());
    assert(start <= end);
    let content = crate::pdf::pages::sub_chars(ax.as_slice(), start, end);
    let base_xml = base_pkg.get_text("word/document.xml")?;
    let bx = str_chars(base_xml.as_str());
    let pos = match rfind_str(bx.as_slice(), "<w:sectPr") {
        Some(s) => s,
        None => match rfind_str(bx.as_slice(), "</w:body>") {
            Some(b) => b,
            None => return Err(WordCliError::CorruptedDocument("主文档结构异常".to_owned())),
        },
    };
    let merged = insert_chars(bx.as_slice(), pos, content.as_slice());
    base_pkg.set_text("word/document.xml", string_from_chars(merged.as_slice()));
    Ok(MergeResponse {
        status: "success".to_owned(),
        command: "merge".to_owned(),
        base_file: base_path.to_owned(),
        appended_file: append_path.to_owned(),
        message: "文档合并完成".to_owned(),
    })
}

/// Deleting a paragraph just inserted undoes the insertion. After
/// `insert_paragraph` writes its paragraph before paragraph number `target`,
/// the main part reads back as the text it wrote; and when quick-xml reads
/// that text as the old tokens with the new paragraph's tokens `p` between,
/// `delete_paragraph` at the same number finds the new paragraph there and
/// writes the old tokens back, as they were before the insertion.
pub proof fn law_delete_after_insert(
    m: Map<Seq<char>, Seq<u8>>,
    target: nat,
    text: Seq<char>,
    style: Option<Seq<char>>,
    ts: Seq<XmlToken>,
    p: Seq<XmlToken>,
)
    requires
        paragraph_start(ts, target) is Some,
        one_paragraph(p),
        raw_concat(p) == paragraph_xml_spec(text, style),
        parsed_as(
            insert_at(ts, paragraph_start(ts, target).unwrap(), paragraph_xml_spec(text, style)),
            false,
            ts.take(paragraph_start(ts, target).unwrap()) + p + ts.skip(paragraph_start(ts, target).unwrap()),
        ),
    ensures
        ({
            let k = paragraph_start(ts, target).unwrap();
            let d2 = insert_at(ts, k, paragraph_xml_spec(text, style));
            &&& part_text(m.insert(document_part(), encode_utf8(d2)), document_part()) == Ok::<Seq<char>, int>(d2)
            &&& forall|ts3: Seq<XmlToken>| #[trigger] parsed_as(d2, false, ts3)
                ==> paragraph_start(ts3, target) == Some(k) && remove_paragraph_spec(ts3, k) == raw_concat(ts)
        }),
{
    let k = paragraph_start(ts, target).unwrap();
    let d2 = insert_at(ts, k, paragraph_xml_spec(text, style));
    let ts2 = ts.take(k) + p + ts.skip(k);
    vstd::utf8::encode_utf8_valid_utf8(d2);
    vstd::utf8::encode_utf8_decode_utf8(d2);
    law_delete_undoes_insert(ts, target, p);
    assert forall|ts3: Seq<XmlToken>| #[trigger] parsed_as(d2, false, ts3)
        implies paragraph_start(ts3, target) == Some(k) && remove_paragraph_spec(ts3, k) == raw_concat(ts) by {
        assert(tokens_view(ts3) == tokens_view(ts2));
        lemma_remove_by_view(ts2, ts3, target);
    }
}

} // verus!
