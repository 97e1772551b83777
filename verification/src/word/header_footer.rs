use vstd::prelude::*;
use vstd::utf8::encode_utf8;

use crate::pdf::extract::has_sub;
use crate::text::{
    contains_str, decimal, find_first, find_last, find_str, insert_chars, insert_text, push_decimal,
    push_str, rfind_str, str_chars, string_from_chars,
};
use crate::word::content::opt_str;
use crate::word::error::WordCliError;
use crate::word::package::{document_part, escape_spec, escape_xml, part_text, DocxPackage};
use crate::word::rewrite::{insert_at, insert_before_paragraph, paragraph_start};
use crate::word::xml::{parsed_as, tokenize, xml_events, XmlToken};

verus! {

/// The outcome of a page-layout operation.
pub struct LayoutOpResponse {
    pub status: String,
    pub command: String,
    pub file: String,
    pub message: String,
}

/// A paragraph holding a hard page break.
pub open spec fn page_break_xml() -> Seq<char> {
    "<w:p><w:r><w:br w:type=\"page\"/></w:r></w:p>"@
}

/// Inserts a hard page break before paragraph number `target_idx`. The
/// caller writes the package out.
pub fn insert_page_break_before(pkg: &mut DocxPackage, file_path: &str, target_idx: usize) -> (r: Result<LayoutOpResponse, WordCliError>)
    ensures
        part_text(old(pkg)@, document_part()) matches Ok(d) ==> match xml_events(d, false) {
            Err(m) => r matches Err(WordCliError::XmlParseError(x)) && x@ == m,
            Ok(_) => exists|ts: Seq<XmlToken>| #[trigger] parsed_as(d, false, ts) && match paragraph_start(ts, target_idx as nat) {
                Some(k) => r is Ok && final(pkg)@ == old(pkg)@.insert(document_part(), encode_utf8(insert_at(ts, k, page_break_xml()))),
                None => r matches Err(WordCliError::InvalidParameter(x))
                    && x@ == "分页符插入索引越界: 目标索引 "@ + decimal(target_idx as nat) + " 超出最大段落数"@,
            },
        },
        r matches Ok(resp) ==> resp.status@ == "success"@ && resp.command@ == "break"@ && resp.file@ == file_path@
            && resp.message@ == "已在段落 "@ + decimal(target_idx as nat) + " 前插入分页符"@,
        r is Err ==> final(pkg)@ == old(pkg)@,
        part_text(old(pkg)@, document_part()) == Err::<Seq<char>, int>(0) ==> (r matches Err(e) && e is NotFound),
        part_text(old(pkg)@, document_part()) == Err::<Seq<char>, int>(1) ==> (r matches Err(e) && e is CorruptedDocument),
{
    let doc = pkg.get_text("word/document.xml")?;
    let ts = match tokenize(doc.as_str(), false) {
        Ok(ts) => ts,
        Err(m) => return Err(WordCliError::XmlParseError(m)),
    };
    assert(parsed_as(doc@, false, ts@));
    let frag = str_chars("<w:p><w:r><w:br w:type=\"page\"/></w:r></w:p>");
    match insert_before_paragraph(&ts, target_idx, frag.as_slice()) {
        None => {
            let mut msg = "分页符插入索引越界: 目标索引 ".to_owned();
            push_decimal(&mut msg, target_idx);
            push_str(&mut msg, " 超出最大段落数");
            Err(WordCliError::InvalidParameter(msg))
        },
        Some(out) => {
            pkg.set_text("word/document.xml", string_from_chars(out.as_slice()));
            let mut msg = "已在段落 ".to_owned();
            push_decimal(&mut msg, target_idx);
            push_str(&mut msg, " 前插入分页符");
            Ok(LayoutOpResponse {
                status: "success".to_owned(),
                command: "break".to_owned(),
                file: file_path.to_owned(),
                message: msg,
            })
        },
    }
}


pub open spec fn hf_part(is_header: bool) -> Seq<char> {
    if is_header { "header1"@ } else { "footer1"@ }
}

pub open spec fn hf_path(is_header: bool) -> Seq<char> {
    "word/"@ + hf_part(is_header) + ".xml"@
}

pub open spec fn hf_rel_type(is_header: bool) -> Seq<char> {
    if is_header {
        "http://schemas.openxmlformats.org/officeDocument/2006/relationships/header"@
    } else {
        "http://schemas.openxmlformats.org/officeDocument/2006/relationships/footer"@
    }
}

pub open spec fn hf_content_type(is_header: bool) -> Seq<char> {
    if is_header {
        "application/vnd.openxmlformats-officedocument.wordprocessingml.header+xml"@
    } else {
        "application/vnd.openxmlformats-officedocument.wordprocessingml.footer+xml"@
    }
}

pub open spec fn hf_rid(is_header: bool) -> Seq<char> {
    if is_header { "rIdHdr1"@ } else { "rIdFtr1"@ }
}

pub open spec fn hf_tag(is_header: bool) -> Seq<char> {
    if is_header { "hdr"@ } else { "ftr"@ }
}

pub open spec fn hf_ref_name(is_header: bool) -> Seq<char> {
    if is_header { "<w:headerReference"@ } else { "<w:footerReference"@ }
}

pub open spec fn hf_word(is_header: bool) -> Seq<char> {
    if is_header { "页眉"@ } else { "页脚"@ }
}

pub open spec fn hf_command(is_header: bool) -> Seq<char> {
    if is_header { "header"@ } else { "footer"@ }
}

/// The reference from the section properties to the header or footer part.
pub open spec fn hf_ref_tag(is_header: bool) -> Seq<char> {
    hf_ref_name(is_header) + " w:type=\"default\" r:id=\""@ + hf_rid(is_header)
        + "\" xmlns:r=\"http://schemas.openxmlformats.org/officeDocument/2006/relationships\"/>"@
}

/// The centred paragraph of the part: the text (escaped, followed by a
/// space) and a `PAGE` field.
pub open spec fn hf_paragraph(text: Option<Seq<char>>, page_num: bool) -> Seq<char> {
    "<w:p><w:pPr><w:jc w:val=\"center\"/></w:pPr>"@ + (match text {
        Some(t) => "<w:r><w:t xml:space=\"preserve\">"@ + escape_spec(t) + " </w:t></w:r>"@,
        None => Seq::empty(),
    }) + (if page_num {
        "<w:fldSimple w:instr=\"PAGE\"><w:r><w:t>1</w:t></w:r></w:fldSimple>"@
    } else {
        Seq::empty()
    }) + "</w:p>"@
}

pub open spec fn hf_content(is_header: bool, text: Option<Seq<char>>, page_num: bool) -> Seq<char> {
    "<?xml version=\"1.0\" encoding=\"UTF-8\" standalone=\"yes\"?><w:"@ + hf_tag(is_header)
        + " xmlns:w=\"http://schemas.openxmlformats.org/wordprocessingml/2006/main\">"@
        + hf_paragraph(text, page_num) + "</w:"@ + hf_tag(is_header) + ">"@
}

/// The body without its first header (or footer) reference tag, if it has one
/// that is closed by `/>`.
pub open spec fn unlink_spec(doc: Seq<char>, is_header: bool) -> Option<Seq<char>> {
    match find_first(doc, hf_ref_name(is_header)) {
        Some(st) => match find_first(doc.skip(st), "/>"@) {
            Some(e) => Some(doc.take(st) + doc.skip(st + e + 2)),
            None => None,
        },
        None => None,
    }
}

/// The content types with an override for the part, when it is missing and
/// the list can take it.
pub open spec fn register_ct_spec(ct: Seq<char>, is_header: bool) -> Option<Seq<char>> {
    if has_sub(ct, "PartName=\"/"@ + hf_path(is_header) + "\""@) {
        None
    } else {
        match find_first(ct, "</Types>"@) {
            Some(p) => Some(insert_text(ct, p, "<Override PartName=\"/"@ + hf_path(is_header) + "\" ContentType=\""@ + hf_content_type(is_header) + "\"/>"@)),
            None => None,
        }
    }
}

/// The relationships with one for the part, when its id is missing.
pub open spec fn register_rel_spec(rels: Seq<char>, is_header: bool) -> Option<Seq<char>> {
    if has_sub(rels, "\""@ + hf_rid(is_header) + "\""@) {
        None
    } else {
        match find_last(rels, "</Relationships>"@) {
            Some(p) => Some(insert_text(rels, p, "<Relationship Id=\""@ + hf_rid(is_header) + "\" Type=\""@ + hf_rel_type(is_header) + "\" Target=\""@ + hf_part(is_header) + ".xml\"/>"@)),
            None => None,
        }
    }
}

/// Just after the start tag of the last section properties.
pub open spec fn after_sect_open(doc: Seq<char>) -> Option<int> {
    match find_last(doc, "<w:sectPr"@) {
        Some(p) => Some(match find_first(doc.skip(p), ">"@) {
            Some(k) => p + k + 1,
            None => p,
        }),
        None => None,
    }
}

/// The body with the reference to the part (unless it is there) and a
/// restart of page numbering in the last section properties.
pub open spec fn attach_spec(doc: Seq<char>, is_header: bool, restart: Option<u32>) -> Seq<char> {
    let d1 = if has_sub(doc, "r:id=\""@ + hf_rid(is_header) + "\""@) {
        doc
    } else {
        match after_sect_open(doc) {
            Some(q) => insert_text(doc, q, hf_ref_tag(is_header)),
            None => doc,
        }
    };
    match restart {
        Some(n) => match after_sect_open(d1) {
            Some(q) => insert_text(d1, q, "<w:pgNumType w:start=\""@ + decimal(n as nat) + "\"/>"@),
            None => d1,
        },
        None => d1,
    }
}

pub open spec fn ct_path() -> Seq<char> {
    "[Content_Types].xml"@
}

pub open spec fn rels_path() -> Seq<char> {
    "word/_rels/document.xml.rels"@
}

pub open spec fn bool_text(b: bool) -> Seq<char> {
    if b { "true"@ } else { "false"@ }
}

pub open spec fn opt_u32_text(o: Option<u32>) -> Seq<char> {
    match o {
        Some(n) => "Some("@ + decimal(n as nat) + ")"@,
        None => "None"@,
    }
}

pub open spec fn map_set(m: Map<Seq<char>, Seq<u8>>, path: Seq<char>, v: Option<Seq<char>>) -> Map<Seq<char>, Seq<u8>> {
    match v {
        Some(t) => m.insert(path, encode_utf8(t)),
        None => m,
    }
}

/// What setting a header or footer makes of the package: the new package
/// and message, or the error kind (0: a part is missing, 1: a part is not
/// UTF-8).
pub open spec fn header_footer_spec(m: Map<Seq<char>, Seq<u8>>, is_header: bool, text: Option<Seq<char>>, page_num: bool, restart: Option<u32>, unlink: bool) -> Result<(Map<Seq<char>, Seq<u8>>, Seq<char>), int> {
    let unlinked: Option<Result<(Map<Seq<char>, Seq<u8>>, Seq<char>), int>> = if unlink && text is None && !page_num {
        match part_text(m, document_part()) {
            Err(c) => Some(Err(c)),
            Ok(doc) => match unlink_spec(doc, is_header) {
                Some(d) => Some(Ok((m.insert(document_part(), encode_utf8(d)), "已解除当前节的"@ + hf_word(is_header) + "绑定"@))),
                None => Some(Ok((m, "当前节未绑定"@ + hf_word(is_header) + "，无需解除"@))),
            },
        }
    } else {
        None
    };
    match unlinked {
        Some(res) => res,
        None => {
            let m1 = m.insert(hf_path(is_header), encode_utf8(hf_content(is_header, text, page_num)));
            match part_text(m1, ct_path()) {
                Err(c) => Err(c),
                Ok(ct) => {
                    let m2 = map_set(m1, ct_path(), register_ct_spec(ct, is_header));
                    match part_text(m2, rels_path()) {
                        Err(c) => Err(c),
                        Ok(rels) => {
                            let m3 = map_set(m2, rels_path(), register_rel_spec(rels, is_header));
                            match part_text(m3, document_part()) {
                                Err(c) => Err(c),
                                Ok(doc) => Ok((
                                    m3.insert(document_part(), encode_utf8(attach_spec(doc, is_header, restart))),
                                    "已成功配置"@ + hf_word(is_header) + " (动态页码: "@ + bool_text(page_num) + ", 起始页码: "@ + opt_u32_text(restart) + ")"@,
                                )),
                            }
                        },
                    }
                },
            }
        },
    }
}

fn after_sect_open_exec(doc: &[char]) -> (r: Option<usize>)
    ensures
        r matches Some(q) ==> after_sect_open(doc@) == Some(q as int) && q <= doc.len(),
        r is None ==> after_sect_open(doc@) is None,
{
    match rfind_str(doc, "<w:sectPr") {
        None => None,
        Some(p) => {
            let rest = crate::pdf::pages::sub_chars(doc, p, doc.len());
            assert(rest@ == doc@.skip(p as int));
            match find_str(rest.as_slice(), ">") {
                Some(k) => {
                    proof {
                        reveal_strlit(">");
                    }
                    Some(p + k + 1)
                },
                None => Some(p),
            }
        },
    }
}

fn hf_content_exec(is_header: bool, text: Option<&str>, page_num: bool) -> (r: String)
    ensures
        r@ == hf_content(is_header, opt_str(text), page_num),
{
    let tag = if is_header { "hdr" } else { "ftr" };
    let mut inner_p = "<w:p><w:pPr><w:jc w:val=\"center\"/></w:pPr>".to_owned();
    match text {
        Some(t) => {
            push_str(&mut inner_p, "<w:r><w:t xml:space=\"preserve\">");
            push_str(&mut inner_p, escape_xml(t).as_str());
            push_str(&mut inner_p, " </w:t></w:r>");
        },
        None => {},
    }
    if page_num {
        push_str(&mut inner_p, "<w:fldSimple w:instr=\"PAGE\"><w:r><w:t>1</w:t></w:r></w:fldSimple>");
    }
    push_str(&mut inner_p, "</w:p>");
    assert(inner_p@ == hf_paragraph(opt_str(text), page_num));
    let mut content = "<?xml version=\"1.0\" encoding=\"UTF-8\" standalone=\"yes\"?><w:".to_owned();
    push_str(&mut content, tag);
    push_str(&mut content, " xmlns:w=\"http://schemas.openxmlformats.org/wordprocessingml/2006/main\">");
    push_str(&mut content, inner_p.as_str());
    push_str(&mut content, "</w:");
    push_str(&mut content, tag);
    push_str(&mut content, ">");
    content
}

/// Removes the section's reference when there is one; `Ok(false)` when
/// there is none.
fn unlink_step(pkg: &mut DocxPackage, is_header: bool) -> (r: Result<bool, WordCliError>)
    ensures
        match part_text(old(pkg)@, document_part()) {
            Err(code) => (r matches Err(e) && (if code == 0 { e is NotFound } else { e is CorruptedDocument })),
            Ok(doc) => match unlink_spec(doc, is_header) {
                Some(d) => r == Ok::<bool, WordCliError>(true) && final(pkg)@ == old(pkg)@.insert(document_part(), encode_utf8(d)),
                None => r == Ok::<bool, WordCliError>(false) && final(pkg)@ == old(pkg)@,
            },
        },
{
    let doc_xml = pkg.get_text("word/document.xml")?;
    let doc = str_chars(doc_xml.as_str());
    let name = if is_header { "<w:headerReference" } else { "<w:footerReference" };
    match find_str(doc.as_slice(), name) {
        Some(st) => {
            let rest = crate::pdf::pages::sub_chars(doc.as_slice(), st, doc.len());
            assert(rest@ == doc@.skip(st as int));
            match find_str(rest.as_slice(), "/>") {
                Some(e) => {
                    proof {
                        reveal_strlit("/>");
                    }
                    let mut out = crate::pdf::pages::sub_chars(doc.as_slice(), 0, st);
                    let tail = crate::pdf::pages::sub_chars(doc.as_slice(), st + e + 2, doc.len());
                    crate::text::extend_chars(&mut out, tail.as_slice());
                    assert(out@ == doc@.take(st as int) + doc@.skip(st + e + 2));
                    pkg.set_text("word/document.xml", string_from_chars(out.as_slice()));
                    Ok(true)
                },
                None => Ok(false),
            }
        },
        None => Ok(false),
    }
}

fn register_ct_step(pkg: &mut DocxPackage, is_header: bool) -> (r: Result<(), WordCliError>)
    ensures
        match part_text(old(pkg)@, ct_path()) {
            Err(code) => (r matches Err(e) && (if code == 0 { e is NotFound } else { e is CorruptedDocument })),
            Ok(ct) => r is Ok && final(pkg)@ == map_set(old(pkg)@, ct_path(), register_ct_spec(ct, is_header)),
        },
{
    let xml_path = if is_header { "word/header1.xml" } else { "word/footer1.xml" };
    proof {
        reveal_strlit("word/header1.xml");
        reveal_strlit("word/footer1.xml");
        reveal_strlit("word/");
        reveal_strlit(".xml");
        reveal_strlit("header1");
        reveal_strlit("footer1");
    }
    assert(xml_path@ == hf_path(is_header));
    let ct_type = if is_header {
        "application/vnd.openxmlformats-officedocument.wordprocessingml.header+xml"
    } else {
        "application/vnd.openxmlformats-officedocument.wordprocessingml.footer+xml"
    };
    let ct_xml = pkg.get_text("[Content_Types].xml")?;
    let ct = str_chars(ct_xml.as_str());
    let mut probe = "PartName=\"/".to_owned();
    push_str(&mut probe, xml_path);
    push_str(&mut probe, "\"");
    if !contains_str(ct.as_slice(), probe.as_str()) {
        match find_str(ct.as_slice(), "</Types>") {
            Some(p) => {
                let mut entry = "<Override PartName=\"/".to_owned();
                push_str(&mut entry, xml_path);
                push_str(&mut entry, "\" ContentType=\"");
                push_str(&mut entry, ct_type);
                push_str(&mut entry, "\"/>");
                let out = insert_chars(ct.as_slice(), p, str_chars(entry.as_str()).as_slice());
                pkg.set_text("[Content_Types].xml", string_from_chars(out.as_slice()));
            },
            None => {},
        }
    }
    Ok(())
}

fn register_rel_step(pkg: &mut DocxPackage, is_header: bool) -> (r: Result<(), WordCliError>)
    ensures
        match part_text(old(pkg)@, rels_path()) {
            Err(code) => (r matches Err(e) && (if code == 0 { e is NotFound } else { e is CorruptedDocument })),
            Ok(rels) => r is Ok && final(pkg)@ == map_set(old(pkg)@, rels_path(), register_rel_spec(rels, is_header)),
        },
{
    let rid = if is_header { "rIdHdr1" } else { "rIdFtr1" };
    let part_name = if is_header { "header1" } else { "footer1" };
    let rel_type = if is_header {
        "http://schemas.openxmlformats.org/officeDocument/2006/relationships/header"
    } else {
        "http://schemas.openxmlformats.org/officeDocument/2006/relationships/footer"
    };
    let rels_xml = pkg.get_text("word/_rels/document.xml.rels")?;
    let rels = str_chars(rels_xml.as_str());
    let mut rid_probe = "\"".to_owned();
    push_str(&mut rid_probe, rid);
    push_str(&mut rid_probe, "\"");
    if !contains_str(rels.as_slice(), rid_probe.as_str()) {
        match rfind_str(rels.as_slice(), "</Relationships>") {
            Some(p) => {
                let mut entry = "<Relationship Id=\"".to_owned();
                push_str(&mut entry, rid);
                push_str(&mut entry, "\" Type=\"");
                push_str(&mut entry, rel_type);
                push_str(&mut entry, "\" Target=\"");
                push_str(&mut entry, part_name);
                push_str(&mut entry, ".xml\"/>");
                let out = insert_chars(rels.as_slice(), p, str_chars(entry.as_str()).as_slice());
                pkg.set_text("word/_rels/document.xml.rels", string_from_chars(out.as_slice()));
            },
            None => {},
        }
    }
    Ok(())
}

fn attach_exec(doc: Vec<char>, is_header: bool, restart: Option<u32>) -> (r: Vec<char>)
    ensures
        r@ == attach_spec(doc@, is_header, restart),
{
    let rid = if is_header { "rIdHdr1" } else { "rIdFtr1" };
    let mut doc = doc;
    let mut ref_tag = (if is_header { "<w:headerReference" } else { "<w:footerReference" }).to_owned();
    push_str(&mut ref_tag, " w:type=\"default\" r:id=\"");
    push_str(&mut ref_tag, rid);
    push_str(&mut ref_tag, "\" xmlns:r=\"http://schemas.openxmlformats.org/officeDocument/2006/relationships\"/>");
    let mut id_probe = "r:id=\"".to_owned();
    push_str(&mut id_probe, rid);
    push_str(&mut id_probe, "\"");
    if !contains_str(doc.as_slice(), id_probe.as_str()) {
        match after_sect_open_exec(doc.as_slice()) {
            Some(q) => {
                doc = insert_chars(doc.as_slice(), q, str_chars(ref_tag.as_str()).as_slice());
            },
            None => {},
        }
    }
    match restart {
        Some(n) => {
            let mut pg = "<w:pgNumType w:start=\"".to_owned();
            push_decimal(&mut pg, n as usize);
            push_str(&mut pg, "\"/>");
            match after_sect_open_exec(doc.as_slice()) {
                Some(q) => {
                    doc = insert_chars(doc.as_slice(), q, str_chars(pg.as_str()).as_slice());
                },
                None => {},
            }
        },
        None => {},
    }
    doc
}

fn hf_message(is_header: bool, page_num: bool, restart: Option<u32>) -> (r: String)
    ensures
        r@ == "已成功配置"@ + hf_word(is_header) + " (动态页码: "@ + bool_text(page_num) + ", 起始页码: "@ + opt_u32_text(restart) + ")"@,
{
    let mut msg = "已成功配置".to_owned();
    push_str(&mut msg, if is_header { "页眉" } else { "页脚" });
    push_str(&mut msg, " (动态页码: ");
    push_str(&mut msg, if page_num { "true" } else { "false" });
    push_str(&mut msg, ", 起始页码: ");
    match restart {
        Some(n) => {
            push_str(&mut msg, "Some(");
            push_decimal(&mut msg, n as usize);
            push_str(&mut msg, ")");
        },
        None => {
            push_str(&mut msg, "None");
        },
    }
    push_str(&mut msg, ")");
    msg
}

/// Sets up the header (or footer) part, registers it and references it from
/// the last section; with `unlink` and nothing to show, removes the
/// section's reference instead, and binds nothing when there is none. The caller writes the package out.
pub fn set_header_or_footer(pkg: &mut DocxPackage, file_path: &str, is_header: bool, text: Option<&str>, page_num: bool, restart_page: Option<u32>, unlink: bool) -> (r: Result<LayoutOpResponse, WordCliError>)
    ensures
        match header_footer_spec(old(pkg)@, is_header, opt_str(text), page_num, restart_page, unlink) {
            Ok(res) => {
                &&& r matches Ok(resp)
                &&& final(pkg)@ == res.0
                &&& resp.status@ == "success"@
                &&& resp.command@ == hf_command(is_header)
                &&& resp.file@ == file_path@
                &&& resp.message@ == res.1
            },
            Err(code) => r matches Err(e) && (if code == 0 { e is NotFound } else { e is CorruptedDocument }),
        },
{
    let command = if is_header { "header" } else { "footer" };
    if unlink && text.is_none() && !page_num {
        let removed = unlink_step(pkg, is_header)?;
        let mut msg = if removed { "已解除当前节的".to_owned() } else { "当前节未绑定".to_owned() };
        push_str(&mut msg, if is_header { "页眉" } else { "页脚" });
        push_str(&mut msg, if removed { "绑定" } else { "，无需解除" });
        return Ok(LayoutOpResponse {
            status: "success".to_owned(),
            command: command.to_owned(),
            file: file_path.to_owned(),
            message: msg,
        });
    }
    let xml_path = if is_header { "word/header1.xml" } else { "word/footer1.xml" };
    proof {
        reveal_strlit("word/header1.xml");
        reveal_strlit("word/footer1.xml");
        reveal_strlit("word/");
        reveal_strlit(".xml");
        reveal_strlit("header1");
        reveal_strlit("footer1");
        reveal_strlit("[Content_Types].xml");
        reveal_strlit("word/_rels/document.xml.rels");
        reveal_strlit("word/document.xml");
    }
    assert(xml_path@ == hf_path(is_header));
    let content = hf_content_exec(is_header, text, page_num);
    pkg.set_text(xml_path, content);
    register_ct_step(pkg, is_header)?;
    register_rel_step(pkg, is_header)?;
    let doc_xml = pkg.get_text("word/document.xml")?;
    let doc = attach_exec(str_chars(doc_xml.as_str()), is_header, restart_page);
    pkg.set_text("word/document.xml", string_from_chars(doc.as_slice()));
    Ok(LayoutOpResponse {
        status: "success".to_owned(),
        command: command.to_owned(),
        file: file_path.to_owned(),
        message: hf_message(is_header, page_num, restart_page),
    })
}

} // verus!
