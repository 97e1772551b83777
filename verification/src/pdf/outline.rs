use vstd::prelude::*;

use crate::text::{chars_eq, str_chars};

verus! {

/// The document information dictionary's text entries.
pub struct MetadataInfo {
    pub title: Option<String>,
    pub author: Option<String>,
    pub creator: Option<String>,
    pub producer: Option<String>,
    pub creation_date: Option<String>,
    pub mod_date: Option<String>,
}

/// A bookmark of a PDF outline: its depth, title, the page it points to
/// (1-based, when it resolves to one) and its sub-bookmarks.
pub struct OutlineNode {
    pub level: usize,
    pub title: String,
    pub target_page: Option<usize>,
    pub children: Vec<OutlineNode>,
}

/// Which parts an inspection shows (metadata, page layout, outline): the
/// one that `only` names, or all three.
pub open spec fn inspect_parts_spec(only: Option<Seq<char>>) -> (bool, bool, bool) {
    match only {
        Some(o) => if o == "metadata"@ {
            (true, false, false)
        } else if o == "layout"@ {
            (false, true, false)
        } else if o == "outline"@ {
            (false, false, true)
        } else {
            (true, true, true)
        },
        None => (true, true, true),
    }
}

pub fn inspect_parts(only: Option<&str>) -> (r: (bool, bool, bool))
    ensures
        r == inspect_parts_spec(match only { Some(o) => Some(o@), None => None }),
{
    proof {
        reveal_strlit("metadata");
        reveal_strlit("layout");
        reveal_strlit("outline");
    }
    match only {
        Some(o) => {
            let v = str_chars(o);
            if chars_eq(v.as_slice(), str_chars("metadata").as_slice()) {
                (true, false, false)
            } else if chars_eq(v.as_slice(), str_chars("layout").as_slice()) {
                (false, true, false)
            } else if chars_eq(v.as_slice(), str_chars("outline").as_slice()) {
                (false, false, true)
            } else {
                (true, true, true)
            }
        },
        None => (true, true, true),
    }
}

/// An inspection asked for one part (`metadata`, `layout` or `outline`)
/// reads that part and no other; with no selector, or another word, it reads
/// all three.
pub proof fn law_selector_keeps_named_part(only: Option<Seq<char>>)
    ensures
        only == Some("metadata"@) ==> inspect_parts_spec(only) == (true, false, false),
        only == Some("layout"@) ==> inspect_parts_spec(only) == (false, true, false),
        only == Some("outline"@) ==> inspect_parts_spec(only) == (false, false, true),
        !(only == Some("metadata"@) || only == Some("layout"@) || only == Some("outline"@))
            ==> inspect_parts_spec(only) == (true, true, true),
{
    reveal_strlit("metadata");
    reveal_strlit("layout");
    reveal_strlit("outline");
    assert("layout"@.len() != "metadata"@.len());
    assert("outline"@.len() != "metadata"@.len());
    assert("outline"@.len() != "layout"@.len());
}

} // verus!
