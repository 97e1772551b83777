use vstd::prelude::*;
use vstd::utf8::encode_utf8;

use crate::text::push_str;
use crate::word::error::WordCliError;
use crate::word::package::{document_part, DocxPackage};

verus! {

/// The outcome of creating or copying a document.
pub struct LifecycleResponse {
    pub status: String,
    pub command: String,
    pub target_file: String,
    pub message: String,
}

pub open spec fn blank_content_types() -> Seq<char> {
    "<?xml version=\"1.0\" encoding=\"UTF-8\" standalone=\"yes\"?><Types xmlns=\"http://schemas.openxmlformats.org/package/2006/content-types\"><Default Extension=\"rels\" ContentType=\"application/vnd.openxmlformats-package.relationships+xml\"/><Default Extension=\"xml\" ContentType=\"application/xml\"/><Override PartName=\"/word/document.xml\" ContentType=\"application/vnd.openxmlformats-officedocument.wordprocessingml.document.main+xml\"/></Types>"@
}

pub open spec fn blank_package_rels() -> Seq<char> {
    "<?xml version=\"1.0\" encoding=\"UTF-8\" standalone=\"yes\"?><Relationships xmlns=\"http://schemas.openxmlformats.org/package/2006/relationships\"><Relationship Id=\"rId1\" Type=\"http://schemas.openxmlformats.org/officeDocument/2006/relationships/officeDocument\" Target=\"word/document.xml\"/></Relationships>"@
}

pub open spec fn blank_document_rels() -> Seq<char> {
    "<?xml version=\"1.0\" encoding=\"UTF-8\" standalone=\"yes\"?><Relationships xmlns=\"http://schemas.openxmlformats.org/package/2006/relationships\"></Relationships>"@
}

/// An empty body with one A4 portrait section.
pub open spec fn blank_document_xml() -> Seq<char> {
    "<?xml version=\"1.0\" encoding=\"UTF-8\" standalone=\"yes\"?><w:document xmlns:w=\"http://schemas.openxmlformats.org/wordprocessingml/2006/main\" xmlns:r=\"http://schemas.openxmlformats.org/officeDocument/2006/relationships\"><w:body><w:p/><w:sectPr><w:pgSz w:w=\"11906\" w:h=\"16838\"/><w:pgMar w:top=\"1440\" w:right=\"1800\" w:bottom=\"1440\" w:left=\"1800\" w:header=\"851\" w:footer=\"992\" w:gutter=\"0\"/></w:sectPr></w:body></w:document>"@
}

/// The smallest well-formed document: content types, package and document
/// relationships, and a main part with an empty body.
pub fn blank_document() -> (p: DocxPackage)
    ensures
        p@ == Map::<Seq<char>, Seq<u8>>::empty()
            .insert("[Content_Types].xml"@, encode_utf8(blank_content_types()))
            .insert("_rels/.rels"@, encode_utf8(blank_package_rels()))
            .insert("word/_rels/document.xml.rels"@, encode_utf8(blank_document_rels()))
            .insert(document_part(), encode_utf8(blank_document_xml())),
        p@.contains_key(document_part()),
{
    let mut p = DocxPackage::from_entries(Vec::new());
    assert(p@ == Map::<Seq<char>, Seq<u8>>::empty());
    p.set_text("[Content_Types].xml", "<?xml version=\"1.0\" encoding=\"UTF-8\" standalone=\"yes\"?><Types xmlns=\"http://schemas.openxmlformats.org/package/2006/content-types\"><Default Extension=\"rels\" ContentType=\"application/vnd.openxmlformats-package.relationships+xml\"/><Default Extension=\"xml\" ContentType=\"application/xml\"/><Override PartName=\"/word/document.xml\" ContentType=\"application/vnd.openxmlformats-officedocument.wordprocessingml.document.main+xml\"/></Types>".to_owned());
    p.set_text("_rels/.rels", "<?xml version=\"1.0\" encoding=\"UTF-8\" standalone=\"yes\"?><Relationships xmlns=\"http://schemas.openxmlformats.org/package/2006/relationships\"><Relationship Id=\"rId1\" Type=\"http://schemas.openxmlformats.org/officeDocument/2006/relationships/officeDocument\" Target=\"word/document.xml\"/></Relationships>".to_owned());
    p.set_text("word/_rels/document.xml.rels", "<?xml version=\"1.0\" encoding=\"UTF-8\" standalone=\"yes\"?><Relationships xmlns=\"http://schemas.openxmlformats.org/package/2006/relationships\"></Relationships>".to_owned());
    p.set_text("word/document.xml", "<?xml version=\"1.0\" encoding=\"UTF-8\" standalone=\"yes\"?><w:document xmlns:w=\"http://schemas.openxmlformats.org/wordprocessingml/2006/main\" xmlns:r=\"http://schemas.openxmlformats.org/officeDocument/2006/relationships\"><w:body><w:p/><w:sectPr><w:pgSz w:w=\"11906\" w:h=\"16838\"/><w:pgMar w:top=\"1440\" w:right=\"1800\" w:bottom=\"1440\" w:left=\"1800\" w:header=\"851\" w:footer=\"992\" w:gutter=\"0\"/></w:sectPr></w:body></w:document>".to_owned());
    p
}

/// The answer to creating `target_path` from `pkg` (the blank document, or
/// the template when one was named). The caller writes the package out.
pub fn create_document(pkg: &DocxPackage, target_path: &str, template_path: Option<&str>) -> (r: Result<LifecycleResponse, WordCliError>)
    ensures
        r is Ok <==> pkg@.contains_key(document_part()),
        r matches Err(e) ==> e is CorruptedDocument,
        r matches Ok(resp) ==> resp.status@ == "success"@ && resp.command@ == "create"@ && resp.target_file@ == target_path@
            && resp.message@ == (if template_path is Some { "已成功从模板派生新文档"@ } else { "已成功创建极简合规标准空白文档"@ }),
{
    pkg.validate_structure()?;
    Ok(LifecycleResponse {
        status: "success".to_owned(),
        command: "create".to_owned(),
        target_file: target_path.to_owned(),
        message: if template_path.is_some() { "已成功从模板派生新文档".to_owned() } else { "已成功创建极简合规标准空白文档".to_owned() },
    })
}

/// The answer to copying the loaded document `pkg` to `target_path`. The
/// caller writes the package out.
pub fn save_as(pkg: &DocxPackage, target_path: &str) -> (r: Result<LifecycleResponse, WordCliError>)
    ensures
        r is Ok <==> pkg@.contains_key(document_part()),
        r matches Err(e) ==> e is CorruptedDocument,
        r matches Ok(resp) ==> resp.status@ == "success"@ && resp.command@ == "save-as"@ && resp.target_file@ == target_path@
            && resp.message@ == "已成功将文档另存为 "@ + target_path@,
{
    pkg.validate_structure()?;
    let mut msg = "已成功将文档另存为 ".to_owned();
    push_str(&mut msg, target_path);
    Ok(LifecycleResponse {
        status: "success".to_owned(),
        command: "save-as".to_owned(),
        target_file: target_path.to_owned(),
        message: msg,
    })
}

} // verus!
