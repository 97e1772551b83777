use vstd::prelude::*;
use vstd::utf8::encode_utf8;

use crate::text::{chars_eq, decimal, push_chars, push_decimal, push_str, str_chars, string_from_chars};
use crate::unicode::{lowercase, to_lowercase, to_uppercase, uppercase};
use crate::word::error::WordCliError;
use crate::word::package::{document_part, part_text, DocxPackage};
use crate::word::rewrite::{last_section_resized, replace_page_size};
use crate::word::xml::{parsed_as, tokenize, xml_events, XmlToken};

verus! {

/// The outcome of a page setup.
pub struct PageSetupResponse {
    pub status: String,
    pub command: String,
    pub file: String,
    pub orientation: String,
    pub paper_size: String,
    pub message: String,
}

/// Whether an orientation word asks for landscape: its lowercase form is
/// `landscape`, `horizontal` or `横向`.
pub open spec fn is_landscape(orientation: Seq<char>) -> bool {
    let o = lowercase(orientation);
    o == "landscape"@ || o == "horizontal"@ || o == "横向"@
}

/// Page width and height in twentieths of a point: A3 when the uppercase
/// paper name is `A3`, A4 for every other name.
pub open spec fn page_dims(landscape: bool, paper_upper: Seq<char>) -> (nat, nat) {
    if paper_upper == "A3"@ {
        if landscape { (23811, 16838) } else { (16838, 23811) }
    } else {
        if landscape { (16838, 11906) } else { (11906, 16838) }
    }
}

/// The `w:pgSz` element for a page of that size.
pub open spec fn pgsz_xml(landscape: bool, w: nat, h: nat) -> Seq<char> {
    "<w:pgSz w:w=\""@ + decimal(w) + "\" w:h=\""@ + decimal(h)
        + (if landscape { "\" w:orient=\"landscape\"/>"@ } else { "\"/>"@ })
}

/// The page size element that a setup with these words writes.
pub open spec fn page_setup_xml(orientation: Seq<char>, paper_size: Seq<char>) -> Seq<char> {
    let l = is_landscape(orientation);
    let d = page_dims(l, uppercase(paper_size));
    pgsz_xml(l, d.0, d.1)
}

/// The message of a successful page setup.
pub open spec fn page_setup_message(landscape: bool, paper_upper: Seq<char>) -> Seq<char> {
    "已成功将页面方向设置为 ["@ + (if landscape { "横向 (landscape)"@ } else { "纵向 (portrait)"@ })
        + "], 纸张规格 ["@ + paper_upper + "]"@
}

fn landscape_word(orientation: &str) -> (b: bool)
    ensures
        b == is_landscape(orientation@),
{
    let lower = str_chars(to_lowercase(orientation).as_str());
    chars_eq(lower.as_slice(), str_chars("landscape").as_slice())
        || chars_eq(lower.as_slice(), str_chars("horizontal").as_slice())
        || chars_eq(lower.as_slice(), str_chars("横向").as_slice())
}

fn page_size_element(landscape: bool, paper_upper: &str) -> (r: Vec<char>)
    ensures
        ({
            let d = page_dims(landscape, paper_upper@);
            r@ == pgsz_xml(landscape, d.0, d.1)
        }),
{
    let a3 = chars_eq(str_chars(paper_upper).as_slice(), str_chars("A3").as_slice());
    let (w, h): (usize, usize) = if a3 {
        if landscape { (23811, 16838) } else { (16838, 23811) }
    } else {
        if landscape { (16838, 11906) } else { (11906, 16838) }
    };
    let mut s = "<w:pgSz w:w=\"".to_owned();
    push_decimal(&mut s, w);
    push_str(&mut s, "\" w:h=\"");
    push_decimal(&mut s, h);
    if landscape {
        push_str(&mut s, "\" w:orient=\"landscape\"/>");
    } else {
        push_str(&mut s, "\"/>");
    }
    str_chars(s.as_str())
}

/// Sets the page size and orientation of the document's last section (the
/// last section properties in the body): its old `w:pgSz` gives way to one
/// new element, written just before the section's end; other sections keep
/// theirs. The caller writes the package out.
pub fn setup_page_layout(pkg: &mut DocxPackage, file_path: &str, orientation: &str, paper_size: &str)
    -> (r: Result<PageSetupResponse, WordCliError>)
    ensures
        r is Ok ==> (part_text(old(pkg)@, document_part()) matches Ok(d) && exists|ts: Seq<XmlToken>| #[trigger] parsed_as(d, false, ts)
            && final(pkg)@ == old(pkg)@.insert(document_part(),
                encode_utf8(last_section_resized(ts, page_setup_xml(orientation@, paper_size@))))),
        r matches Ok(resp) ==> resp.status@ == "success"@ && resp.command@ == "page"@ && resp.file@ == file_path@
            && resp.orientation@ == (if is_landscape(orientation@) { "landscape"@ } else { "portrait"@ })
            && resp.paper_size@ == uppercase(paper_size@)
            && resp.message@ == page_setup_message(is_landscape(orientation@), uppercase(paper_size@)),
        r is Err ==> final(pkg)@ == old(pkg)@,
        part_text(old(pkg)@, document_part()) == Err::<Seq<char>, int>(0) ==> (r matches Err(e) && e is NotFound),
        part_text(old(pkg)@, document_part()) == Err::<Seq<char>, int>(1) ==> (r matches Err(e) && e is CorruptedDocument),
        part_text(old(pkg)@, document_part()) matches Ok(d) ==> match xml_events(d, false) {
            Ok(_) => r is Ok,
            Err(m) => r matches Err(WordCliError::XmlParseError(x)) && x@ == m,
        },
{
    let landscape = landscape_word(orientation);
    let paper_upper = to_uppercase(paper_size);
    let pgsz = page_size_element(landscape, paper_upper.as_str());
    let doc = pkg.get_text("word/document.xml")?;
    let ts = match tokenize(doc.as_str(), false) {
        Ok(ts) => ts,
        Err(m) => return Err(WordCliError::XmlParseError(m)),
    };
    assert(parsed_as(doc@, false, ts@));
    let out = replace_page_size(&ts, pgsz.as_slice());
    pkg.set_text("word/document.xml", string_from_chars(out.as_slice()));
    assert(pkg@ == old(pkg)@.insert(document_part(),
        encode_utf8(last_section_resized(ts@, page_setup_xml(orientation@, paper_size@)))));
    let mut msg = "已成功将页面方向设置为 [".to_owned();
    if landscape {
        push_str(&mut msg, "横向 (landscape)");
    } else {
        push_str(&mut msg, "纵向 (portrait)");
    }
    push_str(&mut msg, "], 纸张规格 [");
    push_chars(&mut msg, str_chars(paper_upper.as_str()).as_slice());
    push_str(&mut msg, "]");
    Ok(PageSetupResponse {
        status: "success".to_owned(),
        command: "page".to_owned(),
        file: file_path.to_owned(),
        orientation: if landscape { "landscape".to_owned() } else { "portrait".to_owned() },
        paper_size: paper_upper,
        message: msg,
    })
}

} // verus!
