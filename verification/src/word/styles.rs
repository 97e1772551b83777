use vstd::prelude::*;

use crate::text::{chars_eq, opt_view, push_str, str_chars};
use crate::word::error::WordCliError;
use crate::word::package::{part_text, DocxPackage};
use crate::word::xml::{attr_value, get_attr, is_tag, parsed_as, tag_is, tokenize, xml_events, XmlKind, XmlToken};

verus! {

/// One style definition of the document.
pub struct StyleItem {
    pub id: String,
    pub name: String,
    pub style_type: String,
    pub is_default: bool,
}

/// The style definitions of the document, in document order.
pub struct StylesResponse {
    pub status: String,
    pub total: usize,
    pub styles: Vec<StyleItem>,
}

pub open spec fn style_view(s: StyleItem) -> (Seq<char>, Seq<char>, Seq<char>, bool) {
    (s.id@, s.name@, s.style_type@, s.is_default)
}

pub open spec fn styles_view(v: Seq<StyleItem>) -> Seq<(Seq<char>, Seq<char>, Seq<char>, bool)> {
    v.map_values(|s: StyleItem| style_view(s))
}

/// The style part.
pub open spec fn styles_part() -> Seq<char> {
    "word/styles.xml"@
}

/// A `w:default` value that marks the default style.
pub open spec fn default_flag(v: Option<Seq<char>>) -> bool {
    v matches Some(x) && (x == "1"@ || x == "true"@)
}

/// The styles that a reading of the tokens collects: each `w:style` start
/// tag opens a style with its `styleId`, `type` and `default` attributes; a
/// `w:name` inside gives its name (its `val` attribute); each `w:style` end
/// tag closes it, and a style with an id is listed (as id, name, type and
/// default flag), its name falling back to the id and its type to
/// `paragraph`.
pub open spec fn style_fold(
    ts: Seq<XmlToken>,
    k: int,
    in_style: bool,
    id: Option<Seq<char>>,
    ty: Option<Seq<char>>,
    def: bool,
    name: Option<Seq<char>>,
) -> Seq<(Seq<char>, Seq<char>, Seq<char>, bool)>
    decreases ts.len() - k,
{
    if k < 0 || k >= ts.len() {
        Seq::empty()
    } else {
        let t = ts[k];
        if is_tag(t, XmlKind::Start, "style"@) {
            style_fold(ts, k + 1, true, attr_value(t.attrs@, "styleId"@), attr_value(t.attrs@, "type"@),
                default_flag(attr_value(t.attrs@, "default"@)), None)
        } else if (is_tag(t, XmlKind::Start, "name"@) || is_tag(t, XmlKind::Empty, "name"@)) && in_style {
            let n = match attr_value(t.attrs@, "val"@) {
                Some(v) => Some(v),
                None => name,
            };
            style_fold(ts, k + 1, in_style, id, ty, def, n)
        } else if is_tag(t, XmlKind::End, "style"@) {
            match id {
                Some(i) => {
                    let item = (i, match name { Some(n) => n, None => i }, match ty { Some(y) => y, None => "paragraph"@ }, def);
                    seq![item] + style_fold(ts, k + 1, false, None, None, def, None)
                },
                None => style_fold(ts, k + 1, false, id, ty, def, name),
            }
        } else {
            style_fold(ts, k + 1, in_style, id, ty, def, name)
        }
    }
}

/// The styles listed by a reading of the tokens from the start.
pub open spec fn styles_of(ts: Seq<XmlToken>) -> Seq<(Seq<char>, Seq<char>, Seq<char>, bool)> {
    style_fold(ts, 0, false, None, None, false, None)
}

fn is_default_value(v: &Option<String>) -> (b: bool)
    ensures
        b == default_flag(opt_view(*v)),
{
    match v {
        Some(x) => {
            let c = str_chars(x.as_str());
            chars_eq(c.as_slice(), str_chars("1").as_slice()) || chars_eq(c.as_slice(), str_chars("true").as_slice())
        },
        None => false,
    }
}

/// Lists the style definitions that the tokens hold.
pub fn collect_styles(ts: &Vec<XmlToken>) -> (r: Vec<StyleItem>)
    ensures
        styles_view(r@) == styles_of(ts@),
{
    let mut out: Vec<StyleItem> = Vec::new();
    let mut in_style = false;
    let mut id: Option<String> = None;
    let mut ty: Option<String> = None;
    let mut def = false;
    let mut name: Option<String> = None;
    let mut k: usize = 0;
    assert(styles_view(out@) == Seq::<(Seq<char>, Seq<char>, Seq<char>, bool)>::empty());
    while k < ts.len()
        invariant
            k <= ts.len(),
            styles_of(ts@) == styles_view(out@) + style_fold(ts@, k as int, in_style, opt_view(id), opt_view(ty), def, opt_view(name)),
        decreases ts.len() - k,
    {
        let t = &ts[k];
        if tag_is(t, XmlKind::Start, "style") {
            in_style = true;
            id = get_attr(&t.attrs, "styleId");
            ty = get_attr(&t.attrs, "type");
            let d = get_attr(&t.attrs, "default");
            def = is_default_value(&d);
            name = None;
        } else if (tag_is(t, XmlKind::Start, "name") || tag_is(t, XmlKind::Empty, "name")) && in_style {
            match get_attr(&t.attrs, "val") {
                Some(v) => {
                    name = Some(v);
                },
                None => {},
            }
        } else if tag_is(t, XmlKind::End, "style") {
            in_style = false;
            match id {
                Some(i) => {
                    let nm = match name {
                        Some(n) => n,
                        None => i.clone(),
                    };
                    let st = match ty {
                        Some(y) => y,
                        None => "paragraph".to_owned(),
                    };
                    let ghost before = styles_view(out@);
                    out.push(StyleItem { id: i, name: nm, style_type: st, is_default: def });
                    assert(styles_view(out@) == before.push(style_view(out@.last())));
                    id = None;
                    ty = None;
                    name = None;
                },
                None => {
                    id = None;
                },
            }
        }
        k += 1;
    }
    out
}

/// Lists the style definitions of `word/styles.xml`, in document order.
pub fn list_styles(pkg: &DocxPackage) -> (r: Result<StylesResponse, WordCliError>)
    ensures
        r matches Ok(resp) ==> resp.status@ == "success"@ && resp.total == resp.styles@.len()
            && (part_text(pkg@, styles_part()) matches Ok(x)
            && exists|ts: Seq<XmlToken>| parsed_as(x, true, ts) && #[trigger] styles_of(ts) == styles_view(resp.styles@)),
        part_text(pkg@, styles_part()) is Err ==> (r matches Err(e) && e is NotFound
            && e->NotFound_0@ == "文档中未找到 word/styles.xml 样式定义文件"@),
        part_text(pkg@, styles_part()) matches Ok(x) ==> match xml_events(x, true) {
            Ok(_) => r is Ok,
            Err(m) => r matches Err(WordCliError::XmlParseError(msg)) && msg@ == "解析 styles.xml 失败: "@ + m,
        },
{
    let xml = match pkg.get_text("word/styles.xml") {
        Ok(x) => x,
        Err(_) => {
            return Err(WordCliError::NotFound("文档中未找到 word/styles.xml 样式定义文件".to_owned()));
        },
    };
    let ts = match tokenize(xml.as_str(), true) {
        Ok(ts) => ts,
        Err(m) => {
            let mut msg = "解析 styles.xml 失败: ".to_owned();
            push_str(&mut msg, m.as_str());
            return Err(WordCliError::XmlParseError(msg));
        },
    };
    let styles = collect_styles(&ts);
    Ok(StylesResponse { status: "success".to_owned(), total: styles.len(), styles })
}

} // verus!
