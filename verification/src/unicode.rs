use vstd::prelude::*;
use vstd::utf8::{decode_utf8, is_scalar, valid_utf8};

verus! {

/// `char::from_u32`: the character with that code point, if it is a
/// Unicode scalar value (at most `0x10FFFF` and not a surrogate).
pub assume_specification[ char::from_u32 ](i: u32) -> (r: Option<char>)
    ensures
        is_scalar(i) ==> r == Some(i as char),
        !is_scalar(i) ==> r is None,
;

/// UTF-16 decoding with U+FFFD for each unpaired surrogate
/// (`String::from_utf16_lossy`).
pub open spec fn utf16_decode(u: Seq<u16>) -> Seq<char>
    decreases u.len(),
{
    if u.len() == 0 {
        Seq::empty()
    } else if 0xD800 <= u[0] <= 0xDBFF && u.len() >= 2 && 0xDC00 <= u[1] <= 0xDFFF {
        seq![(0x10000 + (u[0] - 0xD800) * 0x400 + (u[1] - 0xDC00)) as u32 as char]
            + utf16_decode(u.skip(2))
    } else if 0xD800 <= u[0] <= 0xDFFF {
        seq!['\u{FFFD}'] + utf16_decode(u.skip(1))
    } else {
        seq![u[0] as u32 as char] + utf16_decode(u.skip(1))
    }
}

/// Decodes UTF-16 code units, replacing each unpaired surrogate by U+FFFD.
pub fn from_utf16_lossy(u: &[u16]) -> (r: Vec<char>)
    ensures
        r@ == utf16_decode(u@),
{
    let mut out: Vec<char> = Vec::new();
    let mut i: usize = 0;
    assert(u@.skip(0) == u@);
    while i < u.len()
        invariant
            i <= u.len(),
            utf16_decode(u@) == out@ + utf16_decode(u@.skip(i as int)),
        decreases u.len() - i,
    {
        let ghost rest = u@.skip(i as int);
        let a = u[i];
        if 0xD800 <= a && a <= 0xDBFF && i + 1 < u.len() && 0xDC00 <= u[i + 1] && u[i + 1]
            <= 0xDFFF {
            let b = u[i + 1];
            let v: u32 = 0x10000 + ((a as u32) - 0xD800) * 0x400 + ((b as u32) - 0xDC00);
            let c = char::from_u32(v);
            assert(is_scalar(v));
            out.push(c.unwrap());
            assert(rest.skip(2) == u@.skip(i + 2));
            i += 2;
        } else if 0xD800 <= a && a <= 0xDFFF {
            out.push('\u{FFFD}');
            assert(rest.skip(1) == u@.skip(i + 1));
            i += 1;
        } else {
            let c = char::from_u32(a as u32);
            assert(is_scalar(a as u32));
            out.push(c.unwrap());
            assert(rest.skip(1) == u@.skip(i + 1));
            i += 1;
        }
    }
    out
}

/// A UTF-8 continuation byte.
pub open spec fn is_cont(y: u8) -> bool {
    0x80 <= y <= 0xBF
}

/// How many bytes a sequence that starts with `x` takes (0: `x` starts
/// none).
pub open spec fn utf8_width(x: u8) -> int {
    if x < 0x80 {
        1
    } else if x < 0xC2 {
        0
    } else if x < 0xE0 {
        2
    } else if x < 0xF0 {
        3
    } else if x < 0xF5 {
        4
    } else {
        0
    }
}

/// The second byte fits the first: no overlong form, no surrogate, nothing
/// above U+10FFFF.
pub open spec fn second_ok(x: u8, y: u8) -> bool {
    if x == 0xE0 {
        0xA0 <= y <= 0xBF
    } else if x == 0xED {
        0x80 <= y <= 0x9F
    } else if x == 0xF0 {
        0x90 <= y <= 0xBF
    } else if x == 0xF4 {
        0x80 <= y <= 0x8F
    } else {
        is_cont(y)
    }
}

/// Where the first error in the bytes from `i` on is and how long the bad
/// sequence is (`None` where the input ends inside a sequence): what
/// `Utf8Error::valid_up_to` and `Utf8Error::error_len` report.
pub open spec fn utf8_first_error(b: Seq<u8>, i: int) -> (int, Option<int>)
    decreases b.len() - i,
{
    if i < 0 || i >= b.len() {
        (b.len() as int, None)
    } else {
        let x = b[i];
        let w = utf8_width(x);
        if w == 1 {
            utf8_first_error(b, i + 1)
        } else if w == 0 {
            (i, Some(1))
        } else if i + 1 >= b.len() {
            (i, None)
        } else if !second_ok(x, b[i + 1]) {
            (i, Some(1))
        } else if w == 2 {
            utf8_first_error(b, i + 2)
        } else if i + 2 >= b.len() {
            (i, None)
        } else if !is_cont(b[i + 2]) {
            (i, Some(2))
        } else if w == 3 {
            utf8_first_error(b, i + 3)
        } else if i + 3 >= b.len() {
            (i, None)
        } else if !is_cont(b[i + 3]) {
            (i, Some(3))
        } else {
            utf8_first_error(b, i + 4)
        }
    }
}

/// The message (`Display`) of the `Utf8Error` that `std::str::from_utf8`
/// reports for bytes that are not UTF-8.
pub open spec fn utf8_error_text(bytes: Seq<u8>) -> Seq<char> {
    let e = utf8_first_error(bytes, 0);
    match e.1 {
        Some(len) => "invalid utf-8 sequence of "@ + crate::text::decimal(len as nat) + " bytes from index "@
            + crate::text::decimal(e.0 as nat),
        None => "incomplete utf-8 byte sequence from index "@ + crate::text::decimal(e.0 as nat),
    }
}

/// `std::str::from_utf8`: the decoded text of valid UTF-8, or the error's
/// message for bytes that are not: the length of the bad sequence and
/// where it starts, or where the input ends inside a sequence, as std
/// documents `Utf8Error::error_len` and `valid_up_to`.
#[verifier::external_body]
pub(crate) fn utf8_to_string(bytes: &[u8]) -> (r: Result<String, String>)
    ensures
        r is Ok <==> valid_utf8(bytes@),
        r matches Ok(s) ==> s@ == decode_utf8(bytes@),
        r matches Err(m) ==> m@ == utf8_error_text(bytes@),
{
    match std::str::from_utf8(bytes) {
        Ok(s) => Ok(s.to_string()),
        Err(e) => Err(e.to_string()),
    }
}


/// The Unicode lowercase mapping of a string, as `str::to_lowercase`
/// computes it.
pub uninterp spec fn lowercase(s: Seq<char>) -> Seq<char>;

/// `str::to_lowercase`: the lowercase equivalent of the string under the
/// Unicode case mappings; on ASCII text these map `A`-`Z` to `a`-`z` and
/// leave every other character, and no more is stated of them here.
#[verifier::external_body]
pub(crate) fn to_lowercase(s: &str) -> (r: String)
    ensures
        r@ == lowercase(s@),
        (forall|i: int| 0 <= i < s@.len() ==> (#[trigger] s@[i] as u32) < 128) ==> r@ == s@.map_values(|c: char| crate::text::ascii_lower(c)),
{
    s.to_lowercase()
}

/// The Unicode `Alphabetic` or `Numeric` property of a character.
pub uninterp spec fn alphanumeric(c: char) -> bool;

/// `char::is_alphanumeric`: whether the character has the Unicode
/// `Alphabetic` or `Numeric` property; the tables are not restated here.
#[verifier::external_body]
pub(crate) fn is_alphanumeric(c: char) -> (b: bool)
    ensures
        b == alphanumeric(c),
{
    c.is_alphanumeric()
}


/// The Unicode uppercase mapping of a string, as `str::to_uppercase`
/// computes it.
pub uninterp spec fn uppercase(s: Seq<char>) -> Seq<char>;

/// `str::to_uppercase`: the uppercase equivalent of the string under the
/// Unicode case mappings; on ASCII text these map `a`-`z` to `A`-`Z` and
/// leave every other character, and no more is stated of them here.
#[verifier::external_body]
pub(crate) fn to_uppercase(s: &str) -> (r: String)
    ensures
        r@ == uppercase(s@),
        (forall|i: int| 0 <= i < s@.len() ==> (#[trigger] s@[i] as u32) < 128) ==> r@ == s@.map_values(|c: char| crate::text::ascii_upper(c)),
{
    s.to_uppercase()
}

} // verus!
