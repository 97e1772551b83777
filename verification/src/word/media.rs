use vstd::prelude::*;
use vstd::utf8::encode_utf8;

use crate::pdf::cmap::{strip_leading, strip_leading_chars};
use crate::pdf::extract::has_sub;
use crate::text::{
    contains_chars, decimal, find_first, push_decimal_u64, find_last, find_str, insert_chars, insert_text, push_chars, push_decimal,
    push_str, rfind_str, str_chars, string_from_chars,
};
use crate::unicode::{lowercase, to_lowercase};
use crate::word::error::WordCliError;
use crate::word::package::{document_part, entries_map, part_text, DocxPackage};
use crate::word::rewrite::{insert_at, insert_before_paragraph, is_end_p, paragraph_start};
use crate::word::xml::{attr_value, get_attr, parsed_as, tag_is, tokenize, xml_events, XmlKind, XmlToken};

verus! {

/// The outcome of a picture operation.
pub struct MediaOpResponse {
    pub status: String,
    pub command: String,
    pub file: String,
    pub affected_count: usize,
    pub message: String,
}

/// The parts of the package under `word/media/`, in package order.
pub fn media_entries(pkg: &DocxPackage) -> (r: Vec<(String, Vec<u8>)>)
    ensures
        forall|i: int| 0 <= i < r@.len() ==> (#[trigger] r@[i]).0@.len() >= 11 && r@[i].0@.take(11) == "word/media/"@
            && pkg@.contains_key(r@[i].0@) && pkg@[r@[i].0@] == r@[i].1@,
{
    let entries = pkg.entries();
    let mut out: Vec<(String, Vec<u8>)> = Vec::new();
    let mut i: usize = 0;
    while i < entries.len()
        invariant
            i <= entries.len(),
            entries_map(entries@) == pkg@,
            crate::word::package::names_unique(entries@),
            forall|j: int| 0 <= j < out@.len() ==> (#[trigger] out@[j]).0@.len() >= 11 && out@[j].0@.take(11) == "word/media/"@
                && pkg@.contains_key(out@[j].0@) && pkg@[out@[j].0@] == out@[j].1@,
        decreases entries.len() - i,
    {
        let name = str_chars(entries[i].0.as_str());
        if crate::text::starts_with_chars(name.as_slice(), str_chars("word/media/").as_slice()) {
            proof {
                reveal_strlit("word/media/");
                crate::word::package::lemma_entry_in_map(entries@, i as int);
            }
            out.push((entries[i].0.clone(), entries[i].1.clone()));
        }
        i += 1;
    }
    out
}

/// The answer to exporting `count` pictures to `out_dir`.
pub fn extract_images_response(out_dir: &str, count: usize) -> (r: MediaOpResponse)
    ensures
        r.status@ == "success"@ && r.command@ == "extract-images"@ && r.file@ == out_dir@ && r.affected_count == count
            && r.message@ == "已成功导出 "@ + decimal(count as nat) + " 张图片至 "@ + out_dir@,
{
    let mut msg = "已成功导出 ".to_owned();
    push_decimal(&mut msg, count);
    push_str(&mut msg, " 张图片至 ");
    push_str(&mut msg, out_dir);
    MediaOpResponse { status: "success".to_owned(), command: "extract-images".to_owned(), file: out_dir.to_owned(), affected_count: count, message: msg }
}

/// The target of the first `Relationship` from token `k` on whose `Id`
/// (empty when it has none) is `rid`.
pub open spec fn rel_target(ts: Seq<XmlToken>, k: int, rid: Seq<char>) -> Option<Seq<char>>
    decreases ts.len() - k,
{
    if k < 0 || k >= ts.len() {
        None
    } else {
        let t = ts[k];
        let is_rel = (t.kind == XmlKind::Start || t.kind == XmlKind::Empty) && t.name@ == "Relationship"@;
        let id = match attr_value(t.attrs@, "Id"@) { Some(v) => v, None => Seq::empty() };
        if is_rel && id == rid {
            Some(match attr_value(t.attrs@, "Target"@) { Some(v) => v, None => Seq::empty() })
        } else {
            rel_target(ts, k + 1, rid)
        }
    }
}

fn rel_target_exec(ts: &Vec<XmlToken>, rid: &str) -> (r: Option<String>)
    ensures
        crate::text::opt_view(r) == rel_target(ts@, 0, rid@),
{
    let want = str_chars(rid);
    let mut k: usize = 0;
    while k < ts.len()
        invariant
            k <= ts.len(),
            want@ == rid@,
            rel_target(ts@, 0, rid@) == rel_target(ts@, k as int, rid@),
        decreases ts.len() - k,
    {
        let t = &ts[k];
        if tag_is(t, XmlKind::Start, "Relationship") || tag_is(t, XmlKind::Empty, "Relationship") {
            let id = match get_attr(&t.attrs, "Id") { Some(v) => str_chars(v.as_str()), None => Vec::new() };
            if crate::text::chars_eq(id.as_slice(), want.as_slice()) {
                return Some(match get_attr(&t.attrs, "Target") { Some(v) => v, None => String::new() });
            }
        }
        k += 1;
    }
    None
}

/// The part a picture named by file name lives in: `word/media/` and the
/// name, or the name itself, whichever the package holds first.
pub open spec fn image_part_by_name(m: Map<Seq<char>, Seq<u8>>, f: Seq<char>) -> Option<Seq<char>> {
    if m.contains_key("word/media/"@ + f) {
        Some("word/media/"@ + f)
    } else if m.contains_key(f) {
        Some(f)
    } else {
        None
    }
}

/// The part a relationship target names: `word/` and the target without
/// leading slashes.
pub open spec fn image_part_by_target(target: Seq<char>) -> Seq<char> {
    "word/"@ + strip_leading(target, '/')
}

/// Replaces the bytes of a picture, found by file name or else by
/// relationship id, with `new_bytes` (read by the caller from
/// `new_image_path`). The caller writes the package out.
pub fn replace_image_binary(
    pkg: &mut DocxPackage,
    doc_path: &str,
    target_rel_id: Option<&str>,
    target_filename: Option<&str>,
    new_image_path: &str,
    new_bytes: Vec<u8>,
) -> (r: Result<MediaOpResponse, WordCliError>)
    ensures
        r is Err ==> final(pkg)@ == old(pkg)@,
        r matches Err(e) ==> e is NotFound && e->NotFound_0@ == "未匹配到目标图片对象，请核对 rId 或文件名"@,
        target_filename matches Some(f) ==> match image_part_by_name(old(pkg)@, f@) {
            Some(key) => r matches Ok(resp) && final(pkg)@ == old(pkg)@.insert(key, new_bytes@)
                && resp.message@ == "已成功用 "@ + new_image_path@ + " 替换图片条目 "@ + key,
            None => r is Err,
        },
        target_filename is None && target_rel_id is None ==> r is Err,
        (target_filename is None && target_rel_id is Some) ==> match part_text(old(pkg)@, "word/_rels/document.xml.rels"@) {
            Ok(x) => match xml_events(x, false) {
                Ok(_) => exists|ts: Seq<XmlToken>| #[trigger] parsed_as(x, false, ts) && match rel_target(ts, 0, target_rel_id.unwrap()@) {
                    Some(t) => r matches Ok(resp) && final(pkg)@ == old(pkg)@.insert(image_part_by_target(t), new_bytes@)
                        && resp.message@ == "已成功用 "@ + new_image_path@ + " 替换图片条目 "@ + image_part_by_target(t),
                    None => r is Err,
                },
                Err(_) => r is Err,
            },
            Err(_) => r is Err,
        },
        r matches Ok(resp) ==> resp.status@ == "success"@ && resp.command@ == "replace-image"@ && resp.file@ == doc_path@
            && resp.affected_count == 1,
{
    let mut key: Option<String> = None;
    match target_filename {
        Some(f) => {
            let mut expected = "word/media/".to_owned();
            push_str(&mut expected, f);
            if pkg.has_part(expected.as_str()) {
                key = Some(expected);
            } else if pkg.has_part(f) {
                key = Some(f.to_owned());
            }
        },
        None => match target_rel_id {
            Some(rid) => {
                match pkg.get_text("word/_rels/document.xml.rels") {
                    Ok(rels) => match tokenize(rels.as_str(), false) {
                        Ok(ts) => {
                            assert(parsed_as(rels@, false, ts@));
                            match rel_target_exec(&ts, rid) {
                                Some(t) => {
                                    let tv = str_chars(t.as_str());
                                    let stripped = strip_leading_chars(tv.as_slice(), '/');
                                    let mut k = "word/".to_owned();
                                    push_chars(&mut k, stripped.as_slice());
                                    assert(k@ == image_part_by_target(rel_target(ts@, 0, rid@).unwrap()));
                                    key = Some(k);
                                },
                                None => {},
                            }
                        },
                        Err(_) => {},
                    },
                    Err(_) => {},
                }
            },
            None => {},
        },
    }
    let k = match key {
        Some(k) => k,
        None => {
            return Err(WordCliError::NotFound("未匹配到目标图片对象，请核对 rId 或文件名".to_owned()));
        },
    };
    pkg.put(k.as_str(), new_bytes);
    let mut msg = "已成功用 ".to_owned();
    push_str(&mut msg, new_image_path);
    push_str(&mut msg, " 替换图片条目 ");
    push_str(&mut msg, k.as_str());
    Ok(MediaOpResponse {
        status: "success".to_owned(),
        command: "replace-image".to_owned(),
        file: doc_path.to_owned(),
        affected_count: 1,
        message: msg,
    })
}

/// The media part for picture number `idx` with that extension.
pub open spec fn media_name(idx: nat, ext: Seq<char>) -> Seq<char> {
    "word/media/image"@ + decimal(idx) + "."@ + ext
}

/// The least picture number in `lo..=hi` whose media part is free.
pub open spec fn first_free_media(m: Map<Seq<char>, Seq<u8>>, ext: Seq<char>, lo: nat, hi: nat) -> Option<nat>
    decreases hi - lo + 1,
{
    if lo > hi {
        None
    } else if !m.contains_key(media_name(lo, ext)) {
        Some(lo)
    } else {
        first_free_media(m, ext, lo + 1, hi)
    }
}

/// A relationship id quoted as an attribute value.
pub open spec fn quoted_rel_id(idx: nat) -> Seq<char> {
    "\"rId"@ + decimal(idx) + "\""@
}

/// The least number in `lo..=hi` whose quoted relationship id the text
/// does not hold.
pub open spec fn first_free_rel(text: Seq<char>, lo: nat, hi: nat) -> Option<nat>
    decreases hi - lo + 1,
{
    if lo > hi {
        None
    } else if !has_sub(text, quoted_rel_id(lo)) {
        Some(lo)
    } else {
        first_free_rel(text, lo + 1, hi)
    }
}

/// The relationships part of the main part.
pub open spec fn rels_part() -> Seq<char> {
    "word/_rels/document.xml.rels"@
}

/// The relationships text used when the package has none.
pub open spec fn empty_rels_xml() -> Seq<char> {
    "<?xml version=\"1.0\" encoding=\"UTF-8\" standalone=\"yes\"?><Relationships xmlns=\"http://schemas.openxmlformats.org/package/2006/relationships\"></Relationships>"@
}

/// The relationship that points at a new picture.
pub open spec fn image_rel_xml(rel: nat, idx: nat, ext: Seq<char>) -> Seq<char> {
    "<Relationship Id=\"rId"@ + decimal(rel)
        + "\" Type=\"http://schemas.openxmlformats.org/officeDocument/2006/relationships/image\" Target=\"media/image"@
        + decimal(idx) + "."@ + ext + "\"/>"@
}

/// The content type a picture extension gets.
pub open spec fn image_mime(ext: Seq<char>) -> Seq<char> {
    if ext == "jpg"@ || ext == "jpeg"@ { "image/jpeg"@ } else { "image/png"@ }
}

/// The content types text with a default for the extension added before
/// `</Types>` when no `Extension="ext"` is there yet.
pub open spec fn types_with_ext(ct: Seq<char>, ext: Seq<char>) -> Option<Seq<char>> {
    if has_sub(ct, "Extension=\""@ + ext + "\""@) {
        None
    } else {
        match find_first(ct, "</Types>"@) {
            Some(p) => Some(insert_text(ct, p, "<Default Extension=\""@ + ext + "\" ContentType=\""@ + image_mime(ext) + "\"/>"@)),
            None => None,
        }
    }
}

/// The paragraph holding an inline picture of `cx` by `cy` EMU that shows
/// relationship `rId<rel>`, centred.
pub open spec fn drawing_xml(rel: nat, cx: u64, cy: u64) -> Seq<char> {
    "<w:p><w:pPr><w:jc w:val=\"center\"/></w:pPr><w:r><w:drawing><wp:inline distT=\"0\" distB=\"0\" distL=\"0\" distR=\"0\" xmlns:wp=\"http://schemas.openxmlformats.org/drawingml/2006/wordprocessingDrawing\"><wp:extent cx=\""@
        + decimal(cx as nat) + "\" cy=\""@ + decimal(cy as nat)
        + "\"/><wp:docPr id=\"1\" name=\"Picture\"/><a:graphic xmlns:a=\"http://schemas.openxmlformats.org/drawingml/2006/main\"><a:graphicData uri=\"http://schemas.openxmlformats.org/drawingml/2006/picture\"><pic:pic xmlns:pic=\"http://schemas.openxmlformats.org/drawingml/2006/picture\"><pic:nvPicPr><pic:cNvPr id=\"0\" name=\"Picture\"/><pic:cNvPicPr/></pic:nvPicPr><pic:blipFill><a:blip r:embed=\"rId"@
        + decimal(rel)
        + "\" xmlns:r=\"http://schemas.openxmlformats.org/officeDocument/2006/relationships\"/><a:stretch><a:fillRect/></a:stretch></pic:blipFill><pic:spPr><a:xfrm><a:off x=\"0\" y=\"0\"/><a:ext cx=\""@
        + decimal(cx as nat) + "\" cy=\""@ + decimal(cy as nat)
        + "\"/></a:xfrm><a:prstGeom prst=\"rect\"><a:avLst/></a:prstGeom></pic:spPr></pic:pic></a:graphicData></a:graphic></wp:inline></w:drawing></w:r></w:p>"@
}

fn drawing_exec(rel: usize, cx: u64, cy: u64) -> (r: Vec<char>)
    ensures
        r@ == drawing_xml(rel as nat, cx, cy),
{
    let mut s = "<w:p><w:pPr><w:jc w:val=\"center\"/></w:pPr><w:r><w:drawing><wp:inline distT=\"0\" distB=\"0\" distL=\"0\" distR=\"0\" xmlns:wp=\"http://schemas.openxmlformats.org/drawingml/2006/wordprocessingDrawing\"><wp:extent cx=\"".to_owned();
    push_decimal_u64(&mut s, cx);
    push_str(&mut s, "\" cy=\"");
    push_decimal_u64(&mut s, cy);
    push_str(&mut s, "\"/><wp:docPr id=\"1\" name=\"Picture\"/><a:graphic xmlns:a=\"http://schemas.openxmlformats.org/drawingml/2006/main\"><a:graphicData uri=\"http://schemas.openxmlformats.org/drawingml/2006/picture\"><pic:pic xmlns:pic=\"http://schemas.openxmlformats.org/drawingml/2006/picture\"><pic:nvPicPr><pic:cNvPr id=\"0\" name=\"Picture\"/><pic:cNvPicPr/></pic:nvPicPr><pic:blipFill><a:blip r:embed=\"rId");
    push_decimal(&mut s, rel);
    push_str(&mut s, "\" xmlns:r=\"http://schemas.openxmlformats.org/officeDocument/2006/relationships\"/><a:stretch><a:fillRect/></a:stretch></pic:blipFill><pic:spPr><a:xfrm><a:off x=\"0\" y=\"0\"/><a:ext cx=\"");
    push_decimal_u64(&mut s, cx);
    push_str(&mut s, "\" cy=\"");
    push_decimal_u64(&mut s, cy);
    push_str(&mut s, "\"/></a:xfrm><a:prstGeom prst=\"rect\"><a:avLst/></a:prstGeom></pic:spPr></pic:pic></a:graphicData></a:graphic></wp:inline></w:drawing></w:r></w:p>");
    str_chars(s.as_str())
}

fn media_name_exec(idx: usize, ext: &[char]) -> (r: String)
    ensures
        r@ == media_name(idx as nat, ext@),
{
    let mut s = "word/media/image".to_owned();
    push_decimal(&mut s, idx);
    push_str(&mut s, ".");
    push_chars(&mut s, ext);
    s
}

fn quoted_rel_exec(idx: usize) -> (r: Vec<char>)
    ensures
        r@ == quoted_rel_id(idx as nat),
{
    let mut s = "\"rId".to_owned();
    push_decimal(&mut s, idx);
    push_str(&mut s, "\"");
    str_chars(s.as_str())
}

/// The number of paragraph end tags.
pub open spec fn end_p_count(ts: Seq<XmlToken>) -> nat
    decreases ts.len(),
{
    if ts.len() == 0 {
        0
    } else {
        end_p_count(ts.drop_last()) + if is_end_p(ts.last()) { 1nat } else { 0nat }
    }
}

fn end_p_count_exec(ts: &Vec<XmlToken>) -> (n: usize)
    ensures
        n as nat == end_p_count(ts@),
{
    let mut n: usize = 0;
    let mut k: usize = 0;
    while k < ts.len()
        invariant
            k <= ts.len(),
            n <= k,
            n as nat == end_p_count(ts@.take(k as int)),
        decreases ts.len() - k,
    {
        assert(ts@.take(k + 1).drop_last() == ts@.take(k as int));
        if tag_is(&ts[k], XmlKind::End, "p") {
            n += 1;
        }
        k += 1;
    }
    assert(ts@.take(ts.len() as int) == ts@);
    n
}

/// The content types part.
pub open spec fn types_part() -> Seq<char> {
    "[Content_Types].xml"@
}

/// The package after a picture is added (before the main part changes):
/// the picture number, the relationship number, and the parts. The media
/// part gets the least free number from 1, the relationship the least
/// unused number from 100 (added before `</Relationships>`), and the
/// content types a default for a new extension. `None` when the content
/// types part cannot be read (or no free number was found).
pub open spec fn picture_stage(m0: Map<Seq<char>, Seq<u8>>, ext: Seq<char>, img: Seq<u8>) -> Option<(nat, nat, Map<Seq<char>, Seq<u8>>)> {
    match first_free_media(m0, ext, 1, (usize::MAX - 1) as nat) {
        None => None,
        Some(i) => {
            let m1 = m0.insert(media_name(i, ext), img);
            let rels = match part_text(m1, rels_part()) {
                Ok(t) => t,
                Err(_) => empty_rels_xml(),
            };
            match first_free_rel(rels, 100, (usize::MAX - 1) as nat) {
                None => None,
                Some(j) => {
                    let m2 = match find_last(rels, "</Relationships>"@) {
                        Some(p) => m1.insert(rels_part(), encode_utf8(insert_text(rels, p, image_rel_xml(j, i, ext)))),
                        None => m1,
                    };
                    match part_text(m2, types_part()) {
                        Ok(ct) => Some((i, j, match types_with_ext(ct, ext) {
                            Some(u) => m2.insert(types_part(), encode_utf8(u)),
                            None => m2,
                        })),
                        Err(_) => None,
                    }
                },
            }
        },
    }
}

/// The extension a picture is stored with: the lowercase of the file's
/// extension, `png` when it has none.
pub open spec fn picture_ext(ext: Option<&str>) -> Seq<char> {
    lowercase(match ext { Some(e) => e@, None => "png"@ })
}

fn free_media_index(pkg: &DocxPackage, ext: &[char]) -> (r: Option<usize>)
    ensures
        r matches Some(i) ==> first_free_media(pkg@, ext@, 1, (usize::MAX - 1) as nat) == Some(i as nat),
        r is None ==> first_free_media(pkg@, ext@, 1, (usize::MAX - 1) as nat) is None,
{
    let mut idx: usize = 1;
    while idx <= usize::MAX - 1
        invariant
            1 <= idx <= usize::MAX,
            first_free_media(pkg@, ext@, 1, (usize::MAX - 1) as nat) == first_free_media(pkg@, ext@, idx as nat, (usize::MAX - 1) as nat),
        decreases usize::MAX - idx,
    {
        let name = media_name_exec(idx, ext);
        if !pkg.has_part(name.as_str()) {
            return Some(idx);
        }
        idx += 1;
    }
    None
}

fn free_rel_index(text: &[char]) -> (r: Option<usize>)
    ensures
        r matches Some(j) ==> first_free_rel(text@, 100, (usize::MAX - 1) as nat) == Some(j as nat),
        r is None ==> first_free_rel(text@, 100, (usize::MAX - 1) as nat) is None,
{
    let mut idx: usize = 100;
    while idx <= usize::MAX - 1
        invariant
            100 <= idx <= usize::MAX,
            first_free_rel(text@, 100, (usize::MAX - 1) as nat) == first_free_rel(text@, idx as nat, (usize::MAX - 1) as nat),
        decreases usize::MAX - idx,
    {
        let q = quoted_rel_exec(idx);
        if !contains_chars(text, q.as_slice()) {
            return Some(idx);
        }
        idx += 1;
    }
    None
}

/// Adds a picture (bytes and extension from the caller) before paragraph
/// number `target_idx`, `cx` by `cy` EMU; `width_text` and `height_text`
/// are the sizes in millimetres as the message shows them. The caller
/// writes the package out.
pub fn insert_image_at_para(
    pkg: &mut DocxPackage,
    doc_path: &str,
    target_idx: usize,
    img_bytes: Vec<u8>,
    img_ext: Option<&str>,
    cx: u64,
    cy: u64,
    width_text: &str,
    height_text: &str,
) -> (r: Result<MediaOpResponse, WordCliError>)
    ensures
        picture_stage(old(pkg)@, picture_ext(img_ext), img_bytes@) is None ==> r is Err,
        picture_stage(old(pkg)@, picture_ext(img_ext), img_bytes@) matches Some((i, j, m3)) ==> match part_text(m3, document_part()) {
            Err(c) => r matches Err(e) && (if c == 0 { e is NotFound } else { e is CorruptedDocument }),
            Ok(d) => match xml_events(d, false) {
                Err(m) => r matches Err(WordCliError::XmlParseError(x)) && x@ == m,
                Ok(_) => exists|ts: Seq<XmlToken>| #[trigger] parsed_as(d, false, ts) && match paragraph_start(ts, target_idx as nat) {
                    Some(k) => r matches Ok(resp)
                        && final(pkg)@ == m3.insert(document_part(), encode_utf8(insert_at(ts, k, drawing_xml(j, cx, cy))))
                        && resp.message@ == "已成功插入图片 (rId: rId"@ + decimal(j) + ", 宽: "@ + width_text@ + "mm, 高: "@
                            + height_text@ + "mm)"@
                        && resp.status@ == "success"@ && resp.command@ == "insert-image"@ && resp.file@ == doc_path@
                        && resp.affected_count == 1,
                    None => r matches Err(WordCliError::InvalidParameter(x))
                        && x@ == "指定段落索引越界: 索引 "@ + decimal(target_idx as nat) + " 超出段落上限 "@ + decimal(end_p_count(ts)),
                },
            },
        },
{
    let ext_raw = match img_ext { Some(e) => e, None => "png" };
    let ext = str_chars(to_lowercase(ext_raw).as_str());
    let ghost m0 = pkg@;
    let i = match free_media_index(pkg, ext.as_slice()) {
        Some(i) => i,
        None => {
            return Err(WordCliError::ExecutionError("无法分配新的媒体文件名".to_owned()));
        },
    };
    let media = media_name_exec(i, ext.as_slice());
    pkg.put(media.as_str(), img_bytes);
    let ghost m1 = pkg@;
    let rels = match pkg.get_text("word/_rels/document.xml.rels") {
        Ok(t) => str_chars(t.as_str()),
        Err(_) => str_chars("<?xml version=\"1.0\" encoding=\"UTF-8\" standalone=\"yes\"?><Relationships xmlns=\"http://schemas.openxmlformats.org/package/2006/relationships\"></Relationships>"),
    };
    let j = match free_rel_index(rels.as_slice()) {
        Some(j) => j,
        None => {
            return Err(WordCliError::ExecutionError("无法分配新的关系编号".to_owned()));
        },
    };
    let mut entry = "<Relationship Id=\"rId".to_owned();
    push_decimal(&mut entry, j);
    push_str(&mut entry, "\" Type=\"http://schemas.openxmlformats.org/officeDocument/2006/relationships/image\" Target=\"media/image");
    push_decimal(&mut entry, i);
    push_str(&mut entry, ".");
    push_chars(&mut entry, ext.as_slice());
    push_str(&mut entry, "\"/>");
    match rfind_str(rels.as_slice(), "</Relationships>") {
        Some(p) => {
            let updated = insert_chars(rels.as_slice(), p, str_chars(entry.as_str()).as_slice());
            pkg.set_text("word/_rels/document.xml.rels", string_from_chars(updated.as_slice()));
        },
        None => {},
    }
    let ct_text = pkg.get_text("[Content_Types].xml")?;
    let ct = str_chars(ct_text.as_str());
    let mut ext_tag = "Extension=\"".to_owned();
    push_chars(&mut ext_tag, ext.as_slice());
    push_str(&mut ext_tag, "\"");
    if !contains_chars(ct.as_slice(), str_chars(ext_tag.as_str()).as_slice()) {
        let jpeg = crate::text::chars_eq(ext.as_slice(), str_chars("jpg").as_slice())
            || crate::text::chars_eq(ext.as_slice(), str_chars("jpeg").as_slice());
        let mut def = "<Default Extension=\"".to_owned();
        push_chars(&mut def, ext.as_slice());
        push_str(&mut def, "\" ContentType=\"");
        if jpeg {
            push_str(&mut def, "image/jpeg");
        } else {
            push_str(&mut def, "image/png");
        }
        push_str(&mut def, "\"/>");
        match find_str(ct.as_slice(), "</Types>") {
            Some(p) => {
                let updated = insert_chars(ct.as_slice(), p, str_chars(def.as_str()).as_slice());
                pkg.set_text("[Content_Types].xml", string_from_chars(updated.as_slice()));
            },
            None => {},
        }
    }
    assert(picture_stage(m0, picture_ext(img_ext), img_bytes@) == Some((i as nat, j as nat, pkg@)));
    let doc = pkg.get_text("word/document.xml")?;
    let ts = match tokenize(doc.as_str(), false) {
        Ok(ts) => ts,
        Err(m) => return Err(WordCliError::XmlParseError(m)),
    };
    assert(parsed_as(doc@, false, ts@));
    let drawing = drawing_exec(j, cx, cy);
    match insert_before_paragraph(&ts, target_idx, drawing.as_slice()) {
        None => {
            let n = end_p_count_exec(&ts);
            let mut msg = "指定段落索引越界: 索引 ".to_owned();
            push_decimal(&mut msg, target_idx);
            push_str(&mut msg, " 超出段落上限 ");
            push_decimal(&mut msg, n);
            Err(WordCliError::InvalidParameter(msg))
        },
        Some(out) => {
            pkg.set_text("word/document.xml", string_from_chars(out.as_slice()));
            let mut msg = "已成功插入图片 (rId: rId".to_owned();
            push_decimal(&mut msg, j);
            push_str(&mut msg, ", 宽: ");
            push_str(&mut msg, width_text);
            push_str(&mut msg, "mm, 高: ");
            push_str(&mut msg, height_text);
            push_str(&mut msg, "mm)");
            Ok(MediaOpResponse {
                status: "success".to_owned(),
                command: "insert-image".to_owned(),
                file: doc_path.to_owned(),
                affected_count: 1,
                message: msg,
            })
        },
    }
}

} // verus!
