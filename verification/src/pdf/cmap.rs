use std::collections::HashMap;
use vstd::prelude::*;
use vstd::utf8::{decode_utf8, is_scalar, valid_utf8};
use vstd::string::StringSliceAdditionalSpecFns;

use crate::num::{parse_bounded, parse_unsigned_chars};
use crate::text::{
    ends_with, ends_with_chars, is_white, lines, lines_of, split_words, str_chars, string_from_chars,
    trim, trim_chars, words,
};
use crate::unicode::{from_utf16_lossy, utf16_decode, utf8_to_string};

verus! {

broadcast use vstd::std_specs::hash::group_hash_axioms;

/// A character map from PDF character codes to Unicode text, as read from a
/// font's ToUnicode stream.
pub struct CMapTable {
    map: HashMap<u32, String>,
}

/// `s` without every leading `c` (`str::trim_start_matches`).
pub open spec fn strip_leading(s: Seq<char>, c: char) -> Seq<char>
    decreases s.len(),
{
    if s.len() > 0 && s[0] == c {
        strip_leading(s.skip(1), c)
    } else {
        s
    }
}

/// `s` without every trailing `c` (`str::trim_end_matches`).
pub open spec fn strip_trailing(s: Seq<char>, c: char) -> Seq<char>
    decreases s.len(),
{
    if s.len() > 0 && s.last() == c {
        strip_trailing(s.drop_last(), c)
    } else {
        s
    }
}

/// A hex token such as `<0041>` without blanks and angle brackets.
pub open spec fn clean_hex(s: Seq<char>) -> Seq<char> {
    strip_trailing(strip_leading(trim(s), '<'), '>')
}

/// A hex character code such as `<0041>`.
pub open spec fn parse_hex_spec(s: Seq<char>) -> Option<u32> {
    match parse_bounded(clean_hex(s), 16, u32::MAX as nat) {
        Some(v) => Some(v as u32),
        None => None,
    }
}

/// The value of a four-byte hex group, if its bytes are ASCII and form a
/// valid `u16` number.
pub open spec fn hex_group(b: Seq<u8>) -> Option<u16> {
    if forall|i: int| 0 <= i < b.len() ==> #[trigger] b[i] < 128 {
        match parse_bounded(b.map_values(|x: u8| x as char), 16, 0xFFFF) {
            Some(v) => Some(v as u16),
            None => None,
        }
    } else {
        None
    }
}

/// The valid four-byte groups of `b`, as UTF-16 code units.
pub open spec fn hex_units(b: Seq<u8>) -> Seq<u16>
    decreases b.len(),
{
    if b.len() < 4 {
        Seq::empty()
    } else {
        match hex_group(b.take(4)) {
            Some(u) => seq![u] + hex_units(b.skip(4)),
            None => hex_units(b.skip(4)),
        }
    }
}

/// A destination string such as `<0041>` or `<D835DC00>`: UTF-16 code units
/// in groups of four hex digits, or else a single code point.
pub open spec fn parse_unicode_hex_spec(s: Seq<char>) -> Option<Seq<char>> {
    let c = clean_hex(s);
    let b = vstd::utf8::encode_utf8(c);
    if b.len() % 4 == 0 {
        let u = hex_units(b);
        if u.len() > 0 {
            Some(utf16_decode(u))
        } else {
            None
        }
    } else {
        match parse_bounded(c, 16, u32::MAX as nat) {
            Some(v) => if is_scalar(v as u32) {
                Some(seq![v as u32 as char])
            } else {
                None
            },
            None => None,
        }
    }
}

/// A `bfchar` line `<code> <unicode>`.
pub open spec fn bfchar_update(m: Map<u32, Seq<char>>, line: Seq<char>) -> Map<u32, Seq<char>> {
    let parts = words(line);
    if parts.len() >= 2 {
        match (parse_hex_spec(parts[0]), parse_unicode_hex_spec(parts[1])) {
            (Some(code), Some(u)) => m.insert(code, u),
            _ => m,
        }
    } else {
        m
    }
}

/// Text after the first `[` up to the next `[` or `]`
/// (`line.split('[').nth(1).and_then(|s| s.split(']').next())`).
pub open spec fn bracket_content(line: Seq<char>) -> Seq<char> {
    let pieces = crate::text::split_char(line, '[');
    if pieces.len() >= 2 {
        crate::text::split_char(pieces[1], ']')[0]
    } else {
        Seq::empty()
    }
}

/// The valid destinations among the words of `s`.
pub open spec fn unicode_targets(ws: Seq<Seq<char>>) -> Seq<Seq<char>>
    decreases ws.len(),
{
    if ws.len() == 0 {
        Seq::empty()
    } else {
        match parse_unicode_hex_spec(ws[0]) {
            Some(u) => seq![u] + unicode_targets(ws.skip(1)),
            None => unicode_targets(ws.skip(1)),
        }
    }
}

/// Maps `start + k` to `targets[k]` for each `k < n`.
pub open spec fn fill_array(m: Map<u32, Seq<char>>, start: u32, targets: Seq<Seq<char>>, n: nat)
    -> Map<u32, Seq<char>>
    decreases n,
{
    if n == 0 {
        m
    } else {
        let k = (n - 1) as nat;
        fill_array(m, start, targets, k).insert((start + k) as u32, targets[k as int])
    }
}

/// Maps `start + k` to the character `dest + k` (modulo 2^32) for each
/// `k < n` where that is a Unicode scalar value.
pub open spec fn fill_seq(m: Map<u32, Seq<char>>, start: u32, dest: u32, n: nat) -> Map<
    u32,
    Seq<char>,
>
    decreases n,
{
    if n == 0 {
        m
    } else {
        let k = (n - 1) as nat;
        let prev = fill_seq(m, start, dest, k);
        let t = ((dest + k) % 0x1_0000_0000) as u32;
        if is_scalar(t) {
            prev.insert((start + k) as u32, seq![t as char])
        } else {
            prev
        }
    }
}

/// A `bfrange` line `<lo> <hi> <dest>` or `<lo> <hi> [<d0> <d1> ...]`.
pub open spec fn bfrange_update(m: Map<u32, Seq<char>>, line: Seq<char>) -> Map<u32, Seq<char>> {
    let parts = words(line);
    if parts.len() >= 3 {
        match (parse_hex_spec(parts[0]), parse_hex_spec(parts[1])) {
            (Some(lo), Some(hi)) => {
                let count: nat = if lo <= hi {
                    (hi - lo + 1) as nat
                } else {
                    0
                };
                if parts[2].len() > 0 && parts[2][0] == '[' {
                    let targets = unicode_targets(words(bracket_content(line)));
                    let n = if targets.len() < count {
                        targets.len()
                    } else {
                        count
                    };
                    fill_array(m, lo, targets, n)
                } else {
                    match parse_hex_spec(parts[2]) {
                        Some(dest) => fill_seq(m, lo, dest, count),
                        None => m,
                    }
                }
            },
            _ => m,
        }
    } else {
        m
    }
}

/// Where `parse_to_unicode` stands between lines: outside any block, inside
/// a `bfchar` block, or inside a `bfrange` block.
pub open spec fn cmap_lines(m: Map<u32, Seq<char>>, ls: Seq<Seq<char>>, mode: int) -> Map<
    u32,
    Seq<char>,
>
    decreases ls.len(),
{
    if ls.len() == 0 {
        m
    } else {
        let l = trim(ls[0]);
        let rest = ls.skip(1);
        if mode == 1 {
            if ends_with(l, "endbfchar"@) {
                cmap_lines(m, rest, 0)
            } else {
                cmap_lines(bfchar_update(m, l), rest, 1)
            }
        } else if mode == 2 {
            if ends_with(l, "endbfrange"@) {
                cmap_lines(m, rest, 0)
            } else {
                cmap_lines(bfrange_update(m, l), rest, 2)
            }
        } else if ends_with(l, "beginbfchar"@) {
            cmap_lines(m, rest, 1)
        } else if ends_with(l, "beginbfrange"@) {
            cmap_lines(m, rest, 2)
        } else {
            cmap_lines(m, rest, 0)
        }
    }
}

/// The map that a ToUnicode stream's text defines.
pub open spec fn parse_to_unicode_spec(text: Seq<char>) -> Map<u32, Seq<char>> {
    cmap_lines(Map::empty(), lines_of(text), 0)
}

/// The character a byte stands for when no map entry covers it: printable
/// ASCII as itself, anything else as U+FFFD.
pub open spec fn fallback_char(b: u8) -> char {
    if 0x20 <= b <= 0x7E {
        b as char
    } else {
        '\u{FFFD}'
    }
}

/// Decoding through a non-empty map: a two-byte code first, then a
/// one-byte code, else the fallback character.
pub open spec fn cmap_decode(m: Map<u32, Seq<char>>, b: Seq<u8>) -> Seq<char>
    decreases b.len(),
{
    if b.len() == 0 {
        Seq::empty()
    } else if b.len() >= 2 && m.contains_key((b[0] * 256 + b[1]) as u32) {
        m[(b[0] * 256 + b[1]) as u32] + cmap_decode(m, b.skip(2))
    } else if m.contains_key(b[0] as u32) {
        m[b[0] as u32] + cmap_decode(m, b.skip(1))
    } else {
        seq![fallback_char(b[0])] + cmap_decode(m, b.skip(1))
    }
}

/// Big-endian byte pairs as UTF-16 code units; an odd last byte is dropped.
pub open spec fn be_pairs(b: Seq<u8>) -> Seq<u16> {
    Seq::new(b.len() / 2, |i: int| (b[2 * i] * 256 + b[2 * i + 1]) as u16)
}

/// Number of zero bytes at even positions.
pub open spec fn even_zeros(b: Seq<u8>) -> nat
    decreases b.len(),
{
    if b.len() == 0 {
        0
    } else {
        (if b[0] == 0 {
            1nat
        } else {
            0nat
        }) + if b.len() >= 2 {
            even_zeros(b.skip(2))
        } else {
            0nat
        }
    }
}

/// What `decode_bytes` makes of a byte string under a given map.
pub open spec fn decode_bytes_spec(m: Map<u32, Seq<char>>, b: Seq<u8>) -> Seq<char> {
    if !m.is_empty() {
        cmap_decode(m, b)
    } else if b.len() >= 2 && b[0] == 0xFE && b[1] == 0xFF {
        utf16_decode(be_pairs(b.skip(2)))
    } else if valid_utf8(b) {
        decode_utf8(b)
    } else if b.len() % 2 == 0 && even_zeros(b) > b.len() / 4 {
        utf16_decode(be_pairs(b))
    } else {
        b.map_values(|x: u8| if x < 128 { x as char } else { '?' })
    }
}


impl View for CMapTable {
    type V = Map<u32, Seq<char>>;

    closed spec fn view(&self) -> Map<u32, Seq<char>> {
        self.map@.map_values(|v: String| v@)
    }
}

pub fn strip_leading_chars(v: &[char], c: char) -> (r: Vec<char>)
    ensures
        r@ == strip_leading(v@, c),
{
    let mut i: usize = 0;
    assert(v@.skip(0) == v@);
    while i < v.len() && v[i] == c
        invariant
            i <= v.len(),
            strip_leading(v@, c) == strip_leading(v@.skip(i as int), c),
        decreases v.len() - i,
    {
        assert(v@.skip(i as int).skip(1) == v@.skip(i + 1));
        i += 1;
    }
    let mut r: Vec<char> = Vec::new();
    let mut j = i;
    while j < v.len()
        invariant
            i <= j <= v.len(),
            r@ == v@.subrange(i as int, j as int),
        decreases v.len() - j,
    {
        r.push(v[j]);
        j += 1;
    }
    assert(r@ == v@.skip(i as int));
    r
}

pub fn strip_trailing_chars(v: &[char], c: char) -> (r: Vec<char>)
    ensures
        r@ == strip_trailing(v@, c),
{
    let mut n: usize = v.len();
    assert(v@.take(v.len() as int) == v@);
    while n > 0 && v[n - 1] == c
        invariant
            n <= v.len(),
            strip_trailing(v@, c) == strip_trailing(v@.take(n as int), c),
        decreases n,
    {
        assert(v@.take(n as int).drop_last() == v@.take(n - 1));
        n -= 1;
    }
    let mut r: Vec<char> = Vec::new();
    let mut j: usize = 0;
    while j < n
        invariant
            j <= n <= v.len(),
            r@ == v@.take(j as int),
        decreases n - j,
    {
        r.push(v[j]);
        j += 1;
    }
    r
}

fn clean_hex_chars(s: &[char]) -> (r: Vec<char>)
    ensures
        r@ == clean_hex(s@),
{
    let t = trim_chars(s);
    let a = strip_leading_chars(t.as_slice(), '<');
    strip_trailing_chars(a.as_slice(), '>')
}

/// A hex character code such as `<0041>` (`u32::from_str_radix`, base 16).
pub fn parse_hex(s: &[char]) -> (r: Option<u32>)
    ensures
        r == parse_hex_spec(s@),
{
    let c = clean_hex_chars(s);
    match parse_unsigned_chars(c.as_slice(), 16, 0xFFFF_FFFF) {
        Some(v) => Some(v as u32),
        None => None,
    }
}

fn hex_group_exec(b: &[u8], i: usize) -> (r: Option<u16>)
    requires
        i + 4 <= b.len(),
    ensures
        r == hex_group(b@.subrange(i as int, i + 4)),
{
    let ghost g = b@.subrange(i as int, i + 4);
    let mut cs: Vec<char> = Vec::new();
    let mut k: usize = 0;
    while k < 4
        invariant
            i + 4 <= b.len(),
            g == b@.subrange(i as int, i + 4),
            k <= 4,
            forall|j: int| 0 <= j < k ==> g[j] < 128,
            cs@ == g.take(k as int).map_values(|x: u8| x as char),
        decreases 4 - k,
    {
        let x = b[i + k];
        if x >= 128 {
            assert(g[k as int] >= 128);
            return None;
        }
        cs.push(x as char);
        k += 1;
        assert(g.take(k as int).map_values(|x: u8| x as char) == g.take((k - 1) as int).map_values(
            |x: u8| x as char,
        ).push(x as char));
    }
    assert(g.take(4) == g);
    match parse_unsigned_chars(cs.as_slice(), 16, 0xFFFF) {
        Some(v) => Some(v as u16),
        None => None,
    }
}

/// A destination string such as `<0041>`: UTF-16 code units in groups of
/// four hex digits, or a single code point.
pub fn parse_unicode_hex(s: &[char]) -> (r: Option<Vec<char>>)
    ensures
        r matches Some(v) ==> parse_unicode_hex_spec(s@) == Some(v@),
        r is None ==> parse_unicode_hex_spec(s@) is None,
{
    let c = clean_hex_chars(s);
    let st = string_from_chars(c.as_slice());
    let b = st.as_str().as_bytes();
    assert(b@ == vstd::utf8::encode_utf8(c@));
    if b.len() % 4 == 0 {
        let mut units: Vec<u16> = Vec::new();
        let mut i: usize = 0;
        assert(b@.skip(0) == b@);
        while b.len() - i >= 4
            invariant
                i <= b.len(),
                (b.len() - i) % 4 == 0,
                hex_units(b@) == units@ + hex_units(b@.skip(i as int)),
            decreases b.len() - i,
        {
            let ghost rest = b@.skip(i as int);
            assert(rest.take(4) == b@.subrange(i as int, i + 4));
            assert(rest.skip(4) == b@.skip(i + 4));
            match hex_group_exec(b, i) {
                Some(u) => units.push(u),
                None => {},
            }
            i += 4;
        }
        assert(b@.skip(i as int).len() < 4);
        if units.len() > 0 {
            Some(from_utf16_lossy(units.as_slice()))
        } else {
            None
        }
    } else {
        match parse_unsigned_chars(c.as_slice(), 16, 0xFFFF_FFFF) {
            Some(v) => {
                match char::from_u32(v as u32) {
                    Some(ch) => {
                        let mut r: Vec<char> = Vec::new();
                        r.push(ch);
                        assert(r@ == seq![v as u32 as char]);
                        Some(r)
                    },
                    None => None,
                }
            },
            None => None,
        }
    }
}


fn bracket_content_exec(line: &[char]) -> (r: Vec<char>)
    ensures
        r@ == bracket_content(line@),
{
    let pieces = crate::text::split_on(line, '[');
    if pieces.len() >= 2 {
        let inner = crate::text::split_on(pieces[1].as_slice(), ']');
        proof {
            crate::text::lemma_split_acc_nonempty(pieces@[1]@, ']', Seq::empty());
        }
        let mut r: Vec<char> = Vec::new();
        crate::text::extend_chars(&mut r, inner[0].as_slice());
        r
    } else {
        Vec::new()
    }
}

fn unicode_targets_exec(ws: &Vec<Vec<char>>) -> (r: Vec<Vec<char>>)
    ensures
        r@.map_values(|v: Vec<char>| v@) == unicode_targets(ws@.map_values(|v: Vec<char>| v@)),
{
    let ghost wv = ws@.map_values(|v: Vec<char>| v@);
    let mut out: Vec<Vec<char>> = Vec::new();
    let mut i: usize = 0;
    assert(wv.skip(0) == wv);
    while i < ws.len()
        invariant
            i <= ws.len(),
            wv == ws@.map_values(|v: Vec<char>| v@),
            unicode_targets(wv) == out@.map_values(|v: Vec<char>| v@) + unicode_targets(
                wv.skip(i as int),
            ),
        decreases ws.len() - i,
    {
        let ghost rest = wv.skip(i as int);
        assert(rest.skip(1) == wv.skip(i + 1));
        assert(rest[0] == ws@[i as int]@);
        let ghost before = out@.map_values(|v: Vec<char>| v@);
        match parse_unicode_hex(ws[i].as_slice()) {
            Some(u) => {
                out.push(u);
                assert(out@.map_values(|v: Vec<char>| v@) == before.push(out@[out.len() - 1]@));
            },
            None => {},
        }
        i += 1;
    }
    out
}

impl CMapTable {
    /// An empty map.
    pub fn new() -> (t: Self)
        ensures
            t@ == Map::<u32, Seq<char>>::empty(),
    {
        let t = CMapTable { map: HashMap::new() };
        assert(t@ =~= Map::<u32, Seq<char>>::empty());
        t
    }

    fn insert(&mut self, code: u32, v: Vec<char>)
        ensures
            final(self)@ == old(self)@.insert(code, v@),
    {
        let s = string_from_chars(v.as_slice());
        self.map.insert(code, s);
        assert(self@ =~= old(self)@.insert(code, v@));
    }

    /// Reads a `bfchar` line `<code> <unicode>`.
    fn parse_bfchar_line(&mut self, line: &[char])
        ensures
            final(self)@ == bfchar_update(old(self)@, line@),
    {
        let parts = split_words(line);
        if parts.len() >= 2 {
            assert(parts@[0]@ == words(line@)[0] && parts@[1]@ == words(line@)[1]);
            let code = parse_hex(parts[0].as_slice());
            let uni = parse_unicode_hex(parts[1].as_slice());
            match (code, uni) {
                (Some(c), Some(u)) => {
                    self.insert(c, u);
                },
                _ => {},
            }
        }
    }

    /// Reads a `bfrange` line: `<lo> <hi> <dest>` maps consecutive codes to
    /// consecutive characters, `<lo> <hi> [<d0> <d1> ...]` to listed strings.
    fn parse_bfrange_line(&mut self, line: &[char])
        ensures
            final(self)@ == bfrange_update(old(self)@, line@),
    {
        let parts = split_words(line);
        if parts.len() < 3 {
            return;
        }
        assert(parts@[0]@ == words(line@)[0] && parts@[1]@ == words(line@)[1] && parts@[2]@ == words(
            line@,
        )[2]);
        let lo = match parse_hex(parts[0].as_slice()) {
            Some(v) => v,
            None => return,
        };
        let hi = match parse_hex(parts[1].as_slice()) {
            Some(v) => v,
            None => return,
        };
        let count: u64 = if lo <= hi { (hi - lo) as u64 + 1 } else { 0 };
        let ghost m0 = self@;
        if parts[2].len() > 0 && parts[2][0] == '[' {
            let content = bracket_content_exec(line);
            let ws = split_words(content.as_slice());
            let targets = unicode_targets_exec(&ws);
            let ghost tv = targets@.map_values(|v: Vec<char>| v@);
            let n: u64 = if (targets.len() as u64) < count { targets.len() as u64 } else { count };
            let mut k: u64 = 0;
            while k < n
                invariant
                    k <= n,
                    n <= count,
                    n <= targets.len(),
                    count == (if lo <= hi { (hi - lo + 1) as nat } else { 0 }),
                    tv == targets@.map_values(|v: Vec<char>| v@),
                    self@ == fill_array(m0, lo, tv, k as nat),
                decreases n - k,
            {
                let code = lo + k as u32;
                let mut t: Vec<char> = Vec::new();
                crate::text::extend_chars(&mut t, targets[k as usize].as_slice());
                self.insert(code, t);
                k += 1;
            }
        } else {
            match parse_hex(parts[2].as_slice()) {
                Some(dest) => {
                    let mut k: u64 = 0;
                    while k < count
                        invariant
                            k <= count,
                            count == (if lo <= hi { (hi - lo + 1) as nat } else { 0 }),
                            self@ == fill_seq(m0, lo, dest, k as nat),
                        decreases count - k,
                    {
                        let code = lo + k as u32;
                        let t: u32 = ((dest as u64 + k) % 0x1_0000_0000) as u32;
                        match char::from_u32(t) {
                            Some(c) => {
                                let mut v: Vec<char> = Vec::new();
                                v.push(c);
                                assert(v@ == seq![t as char]);
                                self.insert(code, v);
                            },
                            None => {},
                        }
                        k += 1;
                    }
                },
                None => {},
            }
        }
    }

    /// Reads the `bfchar` and `bfrange` blocks of a ToUnicode stream.
    pub fn parse_to_unicode(stream_content: &str) -> (t: Self)
        ensures
            t@ == parse_to_unicode_spec(stream_content@),
    {
        let mut table = Self::new();
        let text = str_chars(stream_content);
        let ls = lines(text.as_slice());
        let ghost lv = ls@.map_values(|v: Vec<char>| v@);
        let begin_char = str_chars("beginbfchar");
        let end_char = str_chars("endbfchar");
        let begin_range = str_chars("beginbfrange");
        let end_range = str_chars("endbfrange");
        let mut mode: u8 = 0;
        let mut i: usize = 0;
        assert(lv.skip(0) == lv);
        while i < ls.len()
            invariant
                i <= ls.len(),
                lv == ls@.map_values(|v: Vec<char>| v@),
                lv == lines_of(text@),
                text@ == stream_content@,
                begin_char@ == "beginbfchar"@,
                end_char@ == "endbfchar"@,
                begin_range@ == "beginbfrange"@,
                end_range@ == "endbfrange"@,
                mode <= 2,
                cmap_lines(table@, lv.skip(i as int), mode as int) == parse_to_unicode_spec(
                    stream_content@,
                ),
            decreases ls.len() - i,
        {
            let ghost rest = lv.skip(i as int);
            assert(rest.skip(1) == lv.skip(i + 1));
            assert(rest[0] == ls@[i as int]@);
            let line = trim_chars(ls[i].as_slice());
            if mode == 1 {
                if ends_with_chars(line.as_slice(), end_char.as_slice()) {
                    mode = 0;
                } else {
                    table.parse_bfchar_line(line.as_slice());
                }
            } else if mode == 2 {
                if ends_with_chars(line.as_slice(), end_range.as_slice()) {
                    mode = 0;
                } else {
                    table.parse_bfrange_line(line.as_slice());
                }
            } else if ends_with_chars(line.as_slice(), begin_char.as_slice()) {
                mode = 1;
            } else if ends_with_chars(line.as_slice(), begin_range.as_slice()) {
                mode = 2;
            }
            i += 1;
        }
        table
    }
}


fn be_pairs_exec(b: &[u8], start: usize) -> (r: Vec<u16>)
    requires
        start <= b.len(),
    ensures
        r@ == be_pairs(b@.skip(start as int)),
{
    let ghost t = b@.skip(start as int);
    let mut r: Vec<u16> = Vec::new();
    let mut k: usize = 0;
    let n = (b.len() - start) / 2;
    while k < n
        invariant
            start <= b.len(),
            t == b@.skip(start as int),
            n == t.len() / 2,
            k <= n,
            r@ == be_pairs(t).take(k as int),
        decreases n - k,
    {
        let hi = b[start + 2 * k];
        let lo = b[start + 2 * k + 1];
        assert(t[2 * k as int] == hi && t[2 * k + 1] == lo);
        let u: u16 = ((hi as u16) << 8) | (lo as u16);
        assert(u == (hi * 256 + lo) as u16) by (bit_vector)
            requires
                u == ((hi as u16) << 8) | (lo as u16),
        ;
        r.push(u);
        k += 1;
        assert(r@ =~= be_pairs(t).take(k as int));
    }
    assert(r@ =~= be_pairs(t));
    r
}

fn even_zeros_exec(b: &[u8]) -> (n: usize)
    ensures
        n as nat == even_zeros(b@),
{
    let mut n: usize = 0;
    let mut i: usize = 0;
    assert(b@.skip(0) == b@);
    while i < b.len()
        invariant
            i <= b.len() + 1,
            n <= i,
            i < b.len() ==> even_zeros(b@) == n + even_zeros(b@.skip(i as int)),
            i >= b.len() ==> even_zeros(b@) == n,
        decreases b.len() + 1 - i,
    {
        let ghost rest = b@.skip(i as int);
        if b[i] == 0 {
            n += 1;
        }
        if b.len() - i >= 2 {
            assert(rest.skip(2) == b@.skip(i + 2));
            if b.len() - i == 2 {
                assert(even_zeros(b@.skip(i + 2)) == 0);
            }
        }
        if b.len() - i < 2 {
            i = b.len();
        } else {
            i += 2;
        }
    }
    if b.len() == 0 {
        assert(even_zeros(b@) == 0);
    }
    n
}

impl CMapTable {
    /// Decodes a PDF string: through the map when it has entries (two-byte
    /// codes first, then one-byte codes, else printable ASCII or U+FFFD);
    /// otherwise as UTF-16BE after a byte-order mark, as UTF-8, as UTF-16BE
    /// when zero bytes are frequent at even positions, or byte by byte.
    pub fn decode_bytes(&self, bytes: &[u8]) -> (r: String)
        ensures
            r@ == decode_bytes_spec(self@, bytes@),
    {
        if !self.map.is_empty() {
            assert(!self@.is_empty()) by {
                assert(self@.dom() == self.map@.dom());
            }
            let mut out = String::new();
            let mut i: usize = 0;
            assert(bytes@.skip(0) == bytes@);
            while i < bytes.len()
                invariant
                    i <= bytes.len(),
                    decode_bytes_spec(self@, bytes@) == cmap_decode(self@, bytes@),
                    cmap_decode(self@, bytes@) == out@ + cmap_decode(self@, bytes@.skip(i as int)),
                decreases bytes.len() - i,
            {
                let ghost rest = bytes@.skip(i as int);
                if i + 1 < bytes.len() {
                    let code2: u32 = ((bytes[i] as u32) << 8) | (bytes[i + 1] as u32);
                    let b0 = bytes[i];
                    let b1 = bytes[i + 1];
                    assert(code2 == (b0 * 256 + b1) as u32) by (bit_vector)
                        requires
                            code2 == ((b0 as u32) << 8) | (b1 as u32),
                    ;
                    match self.map.get(&code2) {
                        Some(s) => {
                            assert(self@.contains_key(code2) && self@[code2] == s@);
                            crate::text::push_str(&mut out, s.as_str());
                            assert(rest.skip(2) == bytes@.skip(i + 2));
                            i += 2;
                            continue;
                        },
                        None => {
                            assert(!self@.contains_key(code2));
                        },
                    }
                }
                let code1 = bytes[i] as u32;
                match self.map.get(&code1) {
                    Some(s) => {
                        assert(self@.contains_key(code1) && self@[code1] == s@);
                        crate::text::push_str(&mut out, s.as_str());
                    },
                    None => {
                        let b = bytes[i];
                        if 0x20 <= b && b <= 0x7E {
                            out.push(b as char);
                        } else {
                            out.push('\u{FFFD}');
                        }
                    },
                }
                assert(rest.skip(1) == bytes@.skip(i + 1));
                i += 1;
            }
            return out;
        }
        assert(self@.is_empty()) by {
            assert(self@.dom() == self.map@.dom());
        }
        if bytes.len() >= 2 && bytes[0] == 0xFE && bytes[1] == 0xFF {
            let units = be_pairs_exec(bytes, 2);
            let cs = from_utf16_lossy(units.as_slice());
            return string_from_chars(cs.as_slice());
        }
        match utf8_to_string(bytes) {
            Ok(s) => s,
            Err(_) => {
                if bytes.len() % 2 == 0 && even_zeros_exec(bytes) > bytes.len() / 4 {
                    let units = be_pairs_exec(bytes, 0);
                    assert(bytes@.skip(0) == bytes@);
                    let cs = from_utf16_lossy(units.as_slice());
                    string_from_chars(cs.as_slice())
                } else {
                    let mut out = String::new();
                    let mut i: usize = 0;
                    while i < bytes.len()
                        invariant
                            i <= bytes.len(),
                            out@ == bytes@.take(i as int).map_values(
                                |x: u8| if x < 128 { x as char } else { '?' },
                            ),
                        decreases bytes.len() - i,
                    {
                        let b = bytes[i];
                        if b < 128 {
                            out.push(b as char);
                        } else {
                            out.push('?');
                        }
                        i += 1;
                        assert(bytes@.take(i as int).map_values(
                            |x: u8| if x < 128 { x as char } else { '?' },
                        ) == bytes@.take(i - 1).map_values(
                            |x: u8| if x < 128 { x as char } else { '?' },
                        ).push(if b < 128 { b as char } else { '?' }));
                    }
                    assert(bytes@.take(bytes.len() as int) == bytes@);
                    out
                }
            },
        }
    }
}

/// Without a character map, the UTF-8 bytes of any text decode back to
/// that text: such bytes never start with the UTF-16 byte-order mark and
/// are always valid UTF-8.
pub proof fn law_plain_utf8_decodes_to_itself(s: Seq<char>)
    ensures
        decode_bytes_spec(Map::empty(), vstd::utf8::encode_utf8(s)) == s,
{
    let b = vstd::utf8::encode_utf8(s);
    vstd::utf8::encode_utf8_valid_utf8(s);
    vstd::utf8::encode_utf8_decode_utf8(s);
    assert(Map::<u32, Seq<char>>::empty().is_empty());
    if b.len() >= 2 {
        assert(vstd::utf8::valid_first_scalar(b));
        assert(b[0] != 0xFEu8);
    }
}

/// The UTF-16 code units of a text: one unit below U+10000, a surrogate
/// pair above.
pub open spec fn utf16_units(s: Seq<char>) -> Seq<u16>
    decreases s.len(),
{
    if s.len() == 0 {
        Seq::empty()
    } else {
        let c = s[0] as u32;
        (if c < 0x10000 {
            seq![c as u16]
        } else {
            seq![(0xD800 + (c - 0x10000) / 0x400) as u16, (0xDC00 + (c - 0x10000) % 0x400) as u16]
        }) + utf16_units(s.skip(1))
    }
}

/// Code units as big-endian bytes.
pub open spec fn be_bytes(u: Seq<u16>) -> Seq<u8>
    decreases u.len(),
{
    if u.len() == 0 {
        Seq::empty()
    } else {
        seq![(u[0] / 256) as u8, (u[0] % 256) as u8] + be_bytes(u.skip(1))
    }
}

proof fn lemma_be_bytes(u: Seq<u16>)
    ensures
        be_bytes(u).len() == 2 * u.len(),
        forall|i: int| 0 <= i < u.len() ==> be_bytes(u)[2 * i] == (#[trigger] u[i]) / 256 && be_bytes(u)[2 * i + 1] == u[i] % 256,
    decreases u.len(),
{
    if u.len() > 0 {
        lemma_be_bytes(u.skip(1));
        let b = be_bytes(u);
        assert forall|i: int| 0 <= i < u.len() implies b[2 * i] == (#[trigger] u[i]) / 256 && b[2 * i + 1] == u[i] % 256 by {
            if i > 0 {
                assert(u[i] == u.skip(1)[i - 1]);
                assert(b[2 * i] == be_bytes(u.skip(1))[2 * (i - 1)]);
                assert(b[2 * i + 1] == be_bytes(u.skip(1))[2 * (i - 1) + 1]);
            }
        }
    }
}

proof fn lemma_be_pairs_of_bytes(u: Seq<u16>)
    ensures
        be_pairs(be_bytes(u)) == u,
{
    lemma_be_bytes(u);
    let b = be_bytes(u);
    assert forall|i: int| 0 <= i < u.len() implies #[trigger] be_pairs(b)[i] == u[i] by {
        let x = u[i];
        assert(b[2 * i] == x / 256 && b[2 * i + 1] == x % 256);
        assert((x / 256) * 256 + x % 256 == x) by (nonlinear_arith)
            requires
                0 <= x,
        ;
    }
    assert(be_pairs(b) =~= u);
}

proof fn lemma_utf16_units_decode(s: Seq<char>)
    ensures
        utf16_decode(utf16_units(s)) == s,
    decreases s.len(),
{
    if s.len() > 0 {
        lemma_utf16_units_decode(s.skip(1));
        let c = s[0] as u32;
        let rest = utf16_units(s.skip(1));
        let u = utf16_units(s);
        vstd::utf8::char_is_scalar(s[0]);
        vstd::utf8::char_u32_cast(s[0], c);
        if c < 0x10000 {
            assert(!(0xD800 <= c <= 0xDFFF));
            assert(u == seq![c as u16] + rest);
            assert(u[0] == c as u16);
            assert(u[0] as u32 == c);
            assert(u.skip(1) == rest);
            assert((u[0] as u32) as char == s[0]);
            assert(utf16_decode(u) == seq![s[0]] + s.skip(1));
        } else {
            let q = (c - 0x10000) / 0x400;
            let r = (c - 0x10000) % 0x400;
            assert(c <= 0x10FFFF);
            assert(0 <= q < 0x400 && 0 <= r < 0x400) by (nonlinear_arith)
                requires
                    0x10000 <= c <= 0x10FFFF,
                    q == (c - 0x10000) / 0x400,
                    r == (c - 0x10000) % 0x400,
            ;
            assert(q * 0x400 + r == c - 0x10000) by (nonlinear_arith)
                requires
                    q == (c - 0x10000) / 0x400,
                    r == (c - 0x10000) % 0x400,
            ;
            let hi = (0xD800 + q) as u16;
            let lo = (0xDC00 + r) as u16;
            assert(u == seq![hi, lo] + rest);
            assert(u[0] == hi && u[1] == lo);
            assert(u.skip(2) == rest);
            assert(0x10000 + (hi - 0xD800) * 0x400 + (lo - 0xDC00) == c);
            assert((c as u32) as char == s[0]);
            assert(utf16_decode(u) == seq![s[0]] + s.skip(1));
        }
        assert(seq![s[0]] + s.skip(1) == s);
    }
}

/// Without a character map, text written as UTF-16BE after a byte-order
/// mark decodes back to that text.
pub proof fn law_utf16be_decodes_to_itself(s: Seq<char>)
    ensures
        decode_bytes_spec(Map::empty(), seq![0xFEu8, 0xFFu8] + be_bytes(utf16_units(s))) == s,
{
    let b = seq![0xFEu8, 0xFFu8] + be_bytes(utf16_units(s));
    assert(Map::<u32, Seq<char>>::empty().is_empty());
    assert(b.skip(2) == be_bytes(utf16_units(s)));
    lemma_be_pairs_of_bytes(utf16_units(s));
    lemma_utf16_units_decode(s);
}

} // verus!
