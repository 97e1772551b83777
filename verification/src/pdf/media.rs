use image::ImageEncoder;
use vstd::prelude::*;

use crate::pdf::cmap::{decode_bytes_spec, strip_leading, strip_leading_chars, strip_trailing, strip_trailing_chars, CMapTable};
use crate::pdf::error::PdfCliError;
use crate::pdf::transform::{forward_slashes, to_forward_slashes};
use crate::text::{chars_eq, decimal, decimal_chars, push_chars, push_decimal, push_str, str_chars, string_from_chars, trim, trim_chars};

verus! {

/// One image written out of a PDF.
pub struct ExtractedImageInfo {
    pub page: usize,
    pub image_index: usize,
    pub width: u32,
    pub height: u32,
    pub format: String,
    pub output_path: String,
}

pub struct ExtractImagesResponse {
    pub status: String,
    pub file: String,
    pub output_dir: String,
    pub total_images: usize,
    pub images: Vec<ExtractedImageInfo>,
}

pub struct RenderPageResponse {
    pub status: String,
    pub file: String,
    pub page: usize,
    pub dpi: u32,
    pub width: u32,
    pub height: u32,
    pub output_file: String,
}

/// Page rendering relies on the Windows PDF renderer; elsewhere it is an
/// unsupported operation.
pub fn render_page(_file_path: &str, _page_target: usize, _dpi: u32, _output_file: &str) -> (r: Result<RenderPageResponse, PdfCliError>)
    ensures
        r matches Err(PdfCliError::UnsupportedOperation(m)) && m@ == "页面渲染仅支持Windows"@,
{
    Err(PdfCliError::UnsupportedOperation("页面渲染仅支持Windows".to_owned()))
}

/// The resolution to render at: 300 dpi when none (0) is given.
pub fn render_dpi(dpi: u32) -> (r: u32)
    ensures
        r == if dpi == 0 { 300 } else { dpi },
{
    if dpi == 0 {
        300
    } else {
        dpi
    }
}

/// A page to render must exist: its number runs from 1 to the page count.
pub fn check_render_target(page_target: usize, page_count: usize) -> (r: Result<(), PdfCliError>)
    ensures
        r is Ok <==> 1 <= page_target <= page_count,
        r matches Err(e) ==> e matches PdfCliError::InvalidParameter(m)
            && m@ == "页码 "@ + decimal(page_target as nat) + " 超出范围，总页数 "@ + decimal(page_count as nat),
{
    if page_target == 0 || page_target > page_count {
        let mut msg = "页码 ".to_owned();
        push_decimal(&mut msg, page_target);
        push_str(&mut msg, " 超出范围，总页数 ");
        push_decimal(&mut msg, page_count);
        Err(PdfCliError::InvalidParameter(msg))
    } else {
        Ok(())
    }
}

/// The report of a rendered page; the output path with forward slashes.
pub fn render_response(file_path: &str, page: usize, dpi: u32, width: u32, height: u32, output_file: &str) -> (r: RenderPageResponse)
    ensures
        r.status@ == "success"@,
        r.file@ == file_path@,
        r.page == page,
        r.dpi == dpi,
        r.width == width,
        r.height == height,
        r.output_file@ == forward_slashes(output_file@),
{
    RenderPageResponse {
        status: "success".to_owned(),
        file: file_path.to_owned(),
        page,
        dpi,
        width,
        height,
        output_file: to_forward_slashes(output_file),
    }
}

/// A path as typed on a command line: without blanks and quotes around it,
/// with forward slashes.
pub open spec fn normalize_path_spec(p: Seq<char>) -> Seq<char> {
    let a = strip_trailing(strip_leading(trim(p), '"'), '"');
    let b = strip_trailing(strip_leading(a, '\''), '\'');
    b.map_values(|c: char| if c == '\\' { '/' } else { c })
}

pub fn normalize_path(path: &str) -> (r: String)
    ensures
        r@ == normalize_path_spec(path@),
{
    let t = trim_chars(str_chars(path).as_slice());
    let a = strip_trailing_chars(strip_leading_chars(t.as_slice(), '"').as_slice(), '"');
    let b = strip_trailing_chars(strip_leading_chars(a.as_slice(), '\'').as_slice(), '\'');
    let mut out: Vec<char> = Vec::new();
    let mut i: usize = 0;
    while i < b.len()
        invariant
            i <= b.len(),
            out@ == b@.take(i as int).map_values(|c: char| if c == '\\' { '/' } else { c }),
        decreases b.len() - i,
    {
        let c = b[i];
        out.push(if c == '\\' { '/' } else { c });
        i += 1;
        assert(b@.take(i as int).map_values(|c: char| if c == '\\' { '/' } else { c }) == b@.take(i - 1).map_values(
            |c: char| if c == '\\' { '/' } else { c },
        ).push(if c == '\\' { '/' } else { c }));
    }
    assert(b@.take(b.len() as int) == b@);
    string_from_chars(out.as_slice())
}

/// The map registered under a font name: the first entry with that name.
pub open spec fn font_map(fonts: Seq<(String, CMapTable)>, name: Seq<char>) -> Option<Map<u32, Seq<char>>>
    decreases fonts.len(),
{
    if fonts.len() == 0 {
        None
    } else if fonts[0].0@ == name {
        Some(fonts[0].1@)
    } else {
        font_map(fonts.skip(1), name)
    }
}

/// Decodes a string shown in font `font_name`, through that font's map when
/// the page has one, else with an empty map.
pub fn decode_bytes_with_cmap(bytes: &[u8], font_name: &str, fonts_cmap: &Vec<(String, CMapTable)>) -> (r: String)
    ensures
        r@ == decode_bytes_spec(
            match font_map(fonts_cmap@, font_name@) {
                Some(m) => m,
                None => Map::empty(),
            },
            bytes@,
        ),
{
    let name = str_chars(font_name);
    let mut i: usize = 0;
    assert(fonts_cmap@.skip(0) == fonts_cmap@);
    while i < fonts_cmap.len()
        invariant
            i <= fonts_cmap.len(),
            name@ == font_name@,
            font_map(fonts_cmap@, font_name@) == font_map(fonts_cmap@.skip(i as int), font_name@),
        decreases fonts_cmap.len() - i,
    {
        let ghost rest = fonts_cmap@.skip(i as int);
        assert(rest[0] == fonts_cmap@[i as int]);
        assert(rest.skip(1) == fonts_cmap@.skip(i + 1));
        if chars_eq(str_chars(fonts_cmap[i].0.as_str()).as_slice(), name.as_slice()) {
            return fonts_cmap[i].1.decode_bytes(bytes);
        }
        i += 1;
    }
    CMapTable::new().decode_bytes(bytes)
}

/// Whether a filter name asks for Flate decoding.
pub open spec fn is_flate_name(n: Seq<char>) -> bool {
    n == "FlateDecode"@ || n == "Fl"@
}

/// Whether a stream's `Filter` entry (its names, in order) holds Flate.
pub open spec fn has_flate(filters: Seq<String>) -> bool {
    exists|i: int| 0 <= i < filters.len() && is_flate_name(#[trigger] filters[i]@)
}

pub fn filters_have_flate(filters: &Vec<String>) -> (b: bool)
    ensures
        b == has_flate(filters@),
{
    proof {
        reveal_strlit("FlateDecode");
        reveal_strlit("Fl");
    }
    let flate = str_chars("FlateDecode");
    let fl = str_chars("Fl");
    let mut i: usize = 0;
    while i < filters.len()
        invariant
            i <= filters.len(),
            flate@ == "FlateDecode"@,
            fl@ == "Fl"@,
            forall|j: int| 0 <= j < i ==> !is_flate_name(#[trigger] filters@[j]@),
        decreases filters.len() - i,
    {
        let n = str_chars(filters[i].as_str());
        if chars_eq(n.as_slice(), flate.as_slice()) || chars_eq(n.as_slice(), fl.as_slice()) {
            assert(is_flate_name(filters@[i as int]@));
            return true;
        }
        i += 1;
    }
    false
}

/// What flate2's zlib reader yields when read to the end over `data`: the
/// inflated bytes, or `None` where reading fails.
pub uninterp spec fn zlib_inflate(data: Seq<u8>) -> Option<Seq<u8>>;

/// Reads `data` to the end through flate2's `read::ZlibDecoder`; `None`
/// where the read fails.
#[verifier::external_body]
fn inflate_zlib(data: &[u8]) -> (r: Option<Vec<u8>>)
    ensures
        r is None <==> zlib_inflate(data@) is None,
        r matches Some(v) ==> zlib_inflate(data@) == Some(v@),
{
    let mut decoder = flate2::read::ZlibDecoder::new(data);
    let mut out: Vec<u8> = Vec::new();
    match std::io::Read::read_to_end(&mut decoder, &mut out) {
        Ok(_) => Some(out),
        Err(_) => None,
    }
}

/// What flate2's `write::ZlibEncoder` at the default level writes for
/// `data` once finished; `None` where writing or finishing fails.
pub uninterp spec fn zlib_deflated(data: Seq<u8>) -> Option<Seq<u8>>;

/// Compresses `data` into memory through flate2's `write::ZlibEncoder`
/// (default level): `write_all`, then `finish`. The bytes are named; the zlib
/// decoder reads the data back from them.
#[verifier::external_body]
fn deflate_zlib(data: &[u8]) -> (r: Option<Vec<u8>>)
    ensures
        r is None <==> zlib_deflated(data@) is None,
        r matches Some(b) ==> zlib_deflated(data@) == Some(b@) && zlib_inflate(b@) == Some(data@),
{
    let mut encoder = flate2::write::ZlibEncoder::new(Vec::new(), flate2::Compression::default());
    std::io::Write::write_all(&mut encoder, data).ok()?;
    encoder.finish().ok()
}

/// The zlib-compressed form of `data`, for a `FlateDecode` stream; the data
/// as it is where compressing fails.
pub fn compress_bytes(data: &[u8]) -> (r: Vec<u8>)
    ensures
        r@ == match zlib_deflated(data@) {
            Some(b) => b,
            None => data@,
        },
        zlib_deflated(data@) is Some ==> zlib_inflate(r@) == Some(data@),
{
    match deflate_zlib(data) {
        Some(b) => b,
        None => vstd::slice::slice_to_vec(data),
    }
}

pub open spec fn opt_bytes(o: Option<Vec<u8>>) -> Option<Seq<u8>> {
    match o {
        Some(v) => Some(v@),
        None => None,
    }
}

/// The bytes of an image stream: its content as stored when no Flate filter
/// applies; else the stream's own decoding (`decoded`, done by the PDF
/// library), or failing that a plain zlib inflate that yields something.
pub open spec fn stream_bytes(filters: Seq<String>, content: Seq<u8>, decoded: Option<Seq<u8>>) -> Option<Seq<u8>> {
    if !has_flate(filters) {
        Some(content)
    } else if decoded is Some {
        decoded
    } else {
        match zlib_inflate(content) {
            Some(v) => if v.len() > 0 { Some(v) } else { None },
            None => None,
        }
    }
}

/// The bytes of an image stream (see `stream_bytes`).
pub fn safe_decompress_stream(filters: &Vec<String>, content: &Vec<u8>, decoded: Option<Vec<u8>>) -> (r: Option<Vec<u8>>)
    ensures
        opt_bytes(r) == stream_bytes(filters@, content@, opt_bytes(decoded)),
{
    if !filters_have_flate(filters) {
        let all = take_bytes(content, content.len());
        assert(content@.take(content@.len() as int) == content@);
        return Some(all);
    }
    if decoded.is_some() {
        return decoded;
    }
    match inflate_zlib(content.as_slice()) {
        Some(v) => if v.len() > 0 { Some(v) } else { None },
        None => None,
    }
}

/// How the pixels of an image are written: the stored JPEG bytes, or PNG
/// from RGB or gray samples.
#[derive(PartialEq, Eq, Structural, Clone, Copy)]
pub enum PixelKind {
    Jpeg,
    Rgb,
    Gray,
}

/// One way to write an image out, with the file name and format it gets.
pub struct ImageCandidate {
    pub file_name: String,
    pub format: String,
    pub kind: PixelKind,
    pub bytes: Vec<u8>,
}

pub open spec fn candidate_view(c: ImageCandidate) -> (Seq<char>, Seq<char>, PixelKind, Seq<u8>) {
    (c.file_name@, c.format@, c.kind, c.bytes@)
}

/// Samples per pixel: one for gray, three for RGB.
pub open spec fn channels(kind: PixelKind) -> nat {
    match kind {
        PixelKind::Gray => 1,
        _ => 3,
    }
}

/// What the image crate's `PngEncoder::new(..).write_image` writes for
/// `width` x `height` eight-bit samples (gray, or RGB): the bytes of the PNG
/// file, or the error's message.
pub uninterp spec fn png_encoded(width: u32, height: u32, samples: Seq<u8>, gray: bool) -> Result<Seq<u8>, Seq<char>>;

/// Encodes samples as PNG into memory with `PngEncoder::new` and
/// `write_image` (`L8` for gray, `Rgb8` otherwise), as the crate's `save`
/// does for a `.png` path. The encoder asserts that the samples fill the
/// size exactly, which `requires` states. The bytes are named.
#[verifier::external_body]
fn encode_png(width: u32, height: u32, samples: &[u8], gray: bool) -> (r: Result<Vec<u8>, String>)
    requires
        samples@.len() == width * height * (if gray { 1int } else { 3int }),
    ensures
        r matches Ok(b) ==> png_encoded(width, height, samples@, gray) is Ok && png_encoded(width, height, samples@, gray)->Ok_0 == b@,
        r matches Err(m) ==> png_encoded(width, height, samples@, gray) is Err && png_encoded(width, height, samples@, gray)->Err_0 == m@,
{
    let color = if gray { image::ColorType::L8 } else { image::ColorType::Rgb8 };
    let mut out: Vec<u8> = Vec::new();
    image::codecs::png::PngEncoder::new(&mut out).write_image(samples, width, height, color).map_err(|e| e.to_string())?;
    Ok(out)
}

/// The bytes of the file a candidate is written to: JPEG data as stored;
/// for raw samples, the PNG of the first `width * height` pixels, nothing
/// when there are fewer samples than that or the encoder fails.
pub open spec fn candidate_file_bytes(c: (Seq<char>, Seq<char>, PixelKind, Seq<u8>), width: u32, height: u32) -> Option<Seq<u8>> {
    if c.2 == PixelKind::Jpeg {
        Some(c.3)
    } else {
        let n = width * height * channels(c.2);
        if c.3.len() < n {
            None
        } else {
            match png_encoded(width, height, c.3.take(n), c.2 == PixelKind::Gray) {
                Ok(b) => Some(b),
                Err(_) => None,
            }
        }
    }
}

/// The bytes to write a candidate to its file (see `candidate_file_bytes`).
pub fn candidate_bytes(c: &ImageCandidate, width: u32, height: u32) -> (r: Option<Vec<u8>>)
    ensures
        opt_bytes(r) == candidate_file_bytes(candidate_view(*c), width, height),
{
    if c.kind == PixelKind::Jpeg {
        return Some(c.bytes.clone());
    }
    let gray = c.kind == PixelKind::Gray;
    let ch: u128 = if gray { 1 } else { 3 };
    assert(ch == channels(c.kind));
    let w: u128 = width as u128;
    let h: u128 = height as u128;
    assert(w * h <= 0xFFFF_FFFF * 0xFFFF_FFFF) by (nonlinear_arith)
        requires
            w <= 0xFFFF_FFFF,
            h <= 0xFFFF_FFFF,
    ;
    let wh: u128 = w * h;
    let n: u128 = wh * ch;
    assert(n == width * height * channels(c.kind)) by (nonlinear_arith)
        requires
            n == wh * ch,
            wh == w * h,
            w == width,
            h == height,
            ch == channels(c.kind),
    ;
    if (c.bytes.len() as u128) < n {
        return None;
    }
    let k = n as usize;
    let samples = vstd::slice::slice_subrange(c.bytes.as_slice(), 0, k);
    assert(samples@ == c.bytes@.take(k as int));
    match encode_png(width, height, samples, gray) {
        Ok(b) => Some(b),
        Err(_) => None,
    }
}

/// `{:03}`: the decimal digits of `n`, padded with zeros to three.
pub open spec fn pad3(n: nat) -> Seq<char> {
    let d = decimal(n);
    if d.len() < 3 {
        Seq::new((3 - d.len()) as nat, |_i: int| '0') + d
    } else {
        d
    }
}

/// `img_p{page}_{index:03}.{ext}`.
pub open spec fn image_file_name(page: nat, index: nat, ext: Seq<char>) -> Seq<char> {
    "img_p"@ + decimal(page) + "_"@ + pad3(index) + "."@ + ext
}

pub fn image_file_name_exec(page: usize, index: usize, ext: &str) -> (r: String)
    ensures
        r@ == image_file_name(page as nat, index as nat, ext@),
{
    let mut s = "img_p".to_owned();
    push_decimal(&mut s, page);
    push_str(&mut s, "_");
    let d = decimal_chars(index);
    let ghost before = s@;
    let mut k: usize = d.len();
    while k < 3
        invariant
            d.len() <= k <= 3 || (d.len() >= 3 && k == d.len()),
            d@ == decimal(index as nat),
            s@ == before + Seq::new((k - d.len()) as nat, |_i: int| '0'),
        decreases 3 - k,
    {
        push_str(&mut s, "0");
        proof {
            reveal_strlit("0");
        }
        assert(s@ =~= before + Seq::new((k + 1 - d.len()) as nat, |_i: int| '0'));
        k += 1;
    }
    push_chars(&mut s, d.as_slice());
    push_str(&mut s, ".");
    push_str(&mut s, ext);
    proof {
        reveal_strlit("img_p");
        reveal_strlit("_");
        reveal_strlit(".");
        if d@.len() >= 3 {
            assert(Seq::new(0nat, |_i: int| '0') =~= Seq::<char>::empty());
        }
    }
    assert(s@ =~= image_file_name(page as nat, index as nat, ext@));
    s
}

/// The sample of byte `k` of an RGB image read through a palette: pixel
/// `k / 3` names a palette entry of three bytes; a pixel with no data or an
/// entry past the palette's end stays black.
pub open spec fn palette_sample(raw: Seq<u8>, pal: Seq<u8>, k: int) -> u8 {
    let p = k / 3;
    if p < raw.len() && 3 * (raw[p] as int) + 2 < pal.len() {
        pal[3 * (raw[p] as int) + k % 3]
    } else {
        0u8
    }
}

pub open spec fn indexed_rgb(raw: Seq<u8>, pal: Seq<u8>, n: nat) -> Seq<u8> {
    Seq::new(3 * n, |k: int| palette_sample(raw, pal, k))
}

/// Whether stored bytes are a JPEG image.
pub open spec fn is_jpeg(content: Seq<u8>) -> bool {
    content.len() >= 4 && content[0] == 0xFFu8 && content[1] == 0xD8u8
}

/// The ways to write an image out, in the order they are tried: the stored
/// JPEG; then, from the decoded bytes, RGB through the palette, plain RGB
/// samples and gray samples, each where there are enough bytes. None for
/// an image without both sizes or with a zero size.
pub open spec fn image_candidates_spec(
    page: nat,
    index: nat,
    width: Option<u32>,
    height: Option<u32>,
    content: Seq<u8>,
    raw: Option<Seq<u8>>,
    palette: Option<Seq<u8>>,
) -> Seq<(Seq<char>, Seq<char>, PixelKind, Seq<u8>)> {
    match (width, height) {
        (Some(w), Some(h)) => if w == 0 || h == 0 {
            Seq::empty()
        } else {
            let n = (w * h) as nat;
            let png = image_file_name(page, index, "png"@);
            let jpeg = if is_jpeg(content) {
                seq![(image_file_name(page, index, "jpg"@), "jpg"@, PixelKind::Jpeg, content)]
            } else {
                Seq::empty()
            };
            let decoded = match raw {
                None => Seq::empty(),
                Some(d) => {
                    let a = match palette {
                        Some(p) => seq![(png, "png"@, PixelKind::Rgb, indexed_rgb(d, p, n))],
                        None => Seq::empty(),
                    };
                    let b = if d.len() >= 3 * n { seq![(png, "png"@, PixelKind::Rgb, d.take(3 * n as int))] } else { Seq::empty() };
                    let c = if d.len() >= n { seq![(png, "png"@, PixelKind::Gray, d.take(n as int))] } else { Seq::empty() };
                    a + b + c
                },
            };
            jpeg + decoded
        },
        _ => Seq::empty(),
    }
}

fn take_bytes(d: &Vec<u8>, m: usize) -> (r: Vec<u8>)
    requires
        m <= d.len(),
    ensures
        r@ == d@.take(m as int),
{
    let mut out: Vec<u8> = Vec::new();
    let mut i: usize = 0;
    while i < m
        invariant
            i <= m <= d.len(),
            out@ == d@.take(i as int),
        decreases m - i,
    {
        out.push(d[i]);
        i += 1;
        assert(out@ =~= d@.take(i as int));
    }
    out
}

fn palette_rgb(raw: &Vec<u8>, pal: &Vec<u8>, n: usize) -> (r: Vec<u8>)
    requires
        3 * n <= usize::MAX,
    ensures
        r@ == indexed_rgb(raw@, pal@, n as nat),
{
    let mut out: Vec<u8> = Vec::new();
    let mut p: usize = 0;
    while p < n
        invariant
            p <= n,
            3 * n <= usize::MAX,
            out@.len() == 3 * p,
            forall|k: int| 0 <= k < 3 * p ==> out@[k] == #[trigger] palette_sample(raw@, pal@, k),
        decreases n - p,
    {
        let mut a: u8 = 0;
        let mut b: u8 = 0;
        let mut c: u8 = 0;
        if p < raw.len() {
            let pos: usize = (raw[p] as usize) * 3;
            if pos + 2 < pal.len() {
                a = pal[pos];
                b = pal[pos + 1];
                c = pal[pos + 2];
            }
        }
        let ghost q = 3 * p as int;
        assert(q / 3 == p && (q + 1) / 3 == p && (q + 2) / 3 == p);
        assert(q % 3 == 0 && (q + 1) % 3 == 1 && (q + 2) % 3 == 2);
        out.push(a);
        out.push(b);
        out.push(c);
        assert(out@[q] == palette_sample(raw@, pal@, q));
        assert(out@[q + 1] == palette_sample(raw@, pal@, q + 1));
        assert(out@[q + 2] == palette_sample(raw@, pal@, q + 2));
        p += 1;
    }
    assert(out@ =~= indexed_rgb(raw@, pal@, n as nat));
    out
}

/// The ways to write image `index` of page `page` out (see
/// `image_candidates_spec`). `content` is the stream as stored, `raw` its
/// decoded bytes, `palette` the color table of an indexed color space.
pub fn image_candidates(
    page: usize,
    index: usize,
    width: Option<u32>,
    height: Option<u32>,
    content: &Vec<u8>,
    raw: &Option<Vec<u8>>,
    palette: &Option<Vec<u8>>,
) -> (r: Vec<ImageCandidate>)
    requires
        raw is Some && width is Some && height is Some ==> width.unwrap() * height.unwrap() <= u32::MAX
            && 3 * width.unwrap() * height.unwrap() <= usize::MAX,
        raw matches Some(d) && width is Some && height is Some && d.len() >= 3 * width.unwrap() * height.unwrap()
            ==> 3 * width.unwrap() * height.unwrap() <= u32::MAX + 3,
    ensures
        r@.map_values(|c: ImageCandidate| candidate_view(c)) == image_candidates_spec(page as nat, index as nat, width, height,
            content@, opt_bytes(*raw), opt_bytes(*palette)),
{
    let ghost want = image_candidates_spec(page as nat, index as nat, width, height, content@, opt_bytes(*raw), opt_bytes(*palette));
    let mut out: Vec<ImageCandidate> = Vec::new();
    let (w, h) = match (width, height) {
        (Some(w), Some(h)) => (w, h),
        _ => {
            assert(out@.map_values(|c: ImageCandidate| candidate_view(c)) =~= want);
            return out;
        },
    };
    if w == 0 || h == 0 {
        assert(out@.map_values(|c: ImageCandidate| candidate_view(c)) =~= want);
        return out;
    }
    proof {
        reveal_strlit("jpg");
        reveal_strlit("png");
    }
    let ghost n = (w * h) as nat;
    let ghost png = image_file_name(page as nat, index as nat, "png"@);
    let ghost jpeg = if is_jpeg(content@) {
        seq![(image_file_name(page as nat, index as nat, "jpg"@), "jpg"@, PixelKind::Jpeg, content@)]
    } else {
        Seq::<(Seq<char>, Seq<char>, PixelKind, Seq<u8>)>::empty()
    };
    if content.len() >= 4 && content[0] == 0xFF && content[1] == 0xD8 {
        out.push(ImageCandidate {
            file_name: image_file_name_exec(page, index, "jpg"),
            format: "jpg".to_owned(),
            kind: PixelKind::Jpeg,
            bytes: content.clone(),
        });
    }
    assert(out@.map_values(|c: ImageCandidate| candidate_view(c)) =~= jpeg);
    match raw {
        None => {
            assert(out@.map_values(|c: ImageCandidate| candidate_view(c)) =~= want);
        },
        Some(d) => {
            let total: usize = (w as usize) * (h as usize);
            assert(total as nat == n) by (nonlinear_arith)
                requires
                    total == (w as int) * (h as int),
                    n == (w * h) as nat,
                    w * h <= u32::MAX,
            ;
            assert(3 * (total as int) == 3 * (w as int) * (h as int)) by (nonlinear_arith)
                requires
                    total == (w as int) * (h as int),
            ;
            assert(3 * total <= usize::MAX);
            let ghost a = match opt_bytes(*palette) {
                Some(p) => seq![(png, "png"@, PixelKind::Rgb, indexed_rgb(d@, p, n))],
                None => Seq::<(Seq<char>, Seq<char>, PixelKind, Seq<u8>)>::empty(),
            };
            if let Some(pal) = palette {
                let buf = palette_rgb(d, pal, total);
                out.push(ImageCandidate {
                    file_name: image_file_name_exec(page, index, "png"),
                    format: "png".to_owned(),
                    kind: PixelKind::Rgb,
                    bytes: buf,
                });
            }
            assert(out@.map_values(|c: ImageCandidate| candidate_view(c)) =~= jpeg + a);
            let ghost b = if d@.len() >= 3 * n {
                seq![(png, "png"@, PixelKind::Rgb, d@.take(3 * n as int))]
            } else {
                Seq::<(Seq<char>, Seq<char>, PixelKind, Seq<u8>)>::empty()
            };
            if d.len() >= 3 * total {
                out.push(ImageCandidate {
                    file_name: image_file_name_exec(page, index, "png"),
                    format: "png".to_owned(),
                    kind: PixelKind::Rgb,
                    bytes: take_bytes(d, 3 * total),
                });
            }
            assert(out@.map_values(|c: ImageCandidate| candidate_view(c)) =~= jpeg + a + b);
            let ghost c = if d@.len() >= n {
                seq![(png, "png"@, PixelKind::Gray, d@.take(n as int))]
            } else {
                Seq::<(Seq<char>, Seq<char>, PixelKind, Seq<u8>)>::empty()
            };
            if d.len() >= total {
                out.push(ImageCandidate {
                    file_name: image_file_name_exec(page, index, "png"),
                    format: "png".to_owned(),
                    kind: PixelKind::Gray,
                    bytes: take_bytes(d, total),
                });
            }
            assert(out@.map_values(|c: ImageCandidate| candidate_view(c)) =~= jpeg + a + b + c);
            assert(jpeg + a + b + c =~= jpeg + (a + b + c));
        },
    }
    out
}

/// The image streams of the pages, in page order and each page's streams in
/// the order found, for every page or only page `target`; `pages` holds each
/// page's number with the object keys (number, generation) of its streams.
pub open spec fn page_streams_flat(target: Option<usize>, pages: Seq<(usize, Vec<(u32, u16)>)>) -> Seq<(usize, (u32, u16))>
    decreases pages.len(),
{
    if pages.len() == 0 {
        Seq::empty()
    } else {
        let rest = page_streams_flat(target, pages.drop_last());
        let last = pages.last();
        if target matches Some(t) && t != last.0 {
            rest
        } else {
            rest + last.1@.map_values(|id: (u32, u16)| (last.0, id))
        }
    }
}

/// The streams to write out: those of the pages, then, when no page was
/// chosen, every other image stream of the file, counted as page 1.
pub open spec fn stream_list(target: Option<usize>, pages: Seq<(usize, Vec<(u32, u16)>)>, others: Seq<(u32, u16)>) -> Seq<(usize, (u32, u16))> {
    if target is Some {
        page_streams_flat(target, pages)
    } else {
        page_streams_flat(target, pages) + others.map_values(|id: (u32, u16)| (1usize, id))
    }
}

/// Whether some entry of `s` is the stream `x`.
pub open spec fn has_id(s: Seq<(usize, (u32, u16))>, x: (u32, u16)) -> bool {
    exists|k: int| 0 <= k < s.len() && (#[trigger] s[k]).1 == x
}

/// Each stream once, where it first comes.
pub open spec fn first_occurrences(s: Seq<(usize, (u32, u16))>) -> Seq<(usize, (u32, u16))>
    decreases s.len(),
{
    if s.len() == 0 {
        s
    } else {
        let d = first_occurrences(s.drop_last());
        if has_id(s.drop_last(), s.last().1) {
            d
        } else {
            d.push(s.last())
        }
    }
}

pub open spec fn page_out_of_range(target: Option<usize>, total_pages: usize) -> bool {
    target matches Some(p) && (p == 0 || p > total_pages)
}

fn contains_id(s: &Vec<(usize, (u32, u16))>, x: (u32, u16)) -> (b: bool)
    ensures
        b == has_id(s@, x),
{
    let mut k: usize = 0;
    while k < s.len()
        invariant
            k <= s.len(),
            forall|j: int| 0 <= j < k ==> (#[trigger] s@[j]).1 != x,
        decreases s.len() - k,
    {
        let e = s[k];
        if e.1.0 == x.0 && e.1.1 == x.1 {
            assert(s@[k as int].1 == x);
            return true;
        }
        k += 1;
    }
    false
}

/// The streams to write out for `extract_images`, each once, or the error
/// for a page number outside the document.
pub fn image_stream_queue(
    page_target: Option<usize>,
    total_pages: usize,
    pages: &Vec<(usize, Vec<(u32, u16)>)>,
    others: &Vec<(u32, u16)>,
) -> (r: Result<Vec<(usize, (u32, u16))>, PdfCliError>)
    ensures
        page_out_of_range(page_target, total_pages) ==> (r matches Err(PdfCliError::InvalidParameter(m))
            && m@ == "指定页码 "@ + decimal(page_target.unwrap() as nat) + " 越界，文档总页数: "@ + decimal(total_pages as nat)),
        !page_out_of_range(page_target, total_pages) ==> (r matches Ok(v)
            && v@ == first_occurrences(stream_list(page_target, pages@, others@))),
{
    if let Some(p) = page_target {
        if p == 0 || p > total_pages {
            let mut msg = "指定页码 ".to_owned();
            push_decimal(&mut msg, p);
            push_str(&mut msg, " 越界，文档总页数: ");
            push_decimal(&mut msg, total_pages);
            return Err(PdfCliError::InvalidParameter(msg));
        }
    }
    let mut all: Vec<(usize, (u32, u16))> = Vec::new();
    let mut i: usize = 0;
    while i < pages.len()
        invariant
            i <= pages.len(),
            all@ == page_streams_flat(page_target, pages@.take(i as int)),
        decreases pages.len() - i,
    {
        assert(pages@.take(i + 1).drop_last() == pages@.take(i as int));
        let pnum = pages[i].0;
        let chosen = match page_target {
            Some(t) => t == pnum,
            None => true,
        };
        if chosen {
            let ids = &pages[i].1;
            let ghost base = all@;
            let mut j: usize = 0;
            while j < ids.len()
                invariant
                    j <= ids.len(),
                    all@ == base + ids@.take(j as int).map_values(|id: (u32, u16)| (pnum, id)),
                decreases ids.len() - j,
            {
                all.push((pnum, ids[j]));
                j += 1;
                assert(all@ =~= base + ids@.take(j as int).map_values(|id: (u32, u16)| (pnum, id)));
            }
            assert(ids@.take(ids.len() as int) == ids@);
        }
        i += 1;
    }
    assert(pages@.take(pages.len() as int) == pages@);
    if page_target.is_none() {
        let ghost base = all@;
        let mut j: usize = 0;
        while j < others.len()
            invariant
                j <= others.len(),
                all@ == base + others@.take(j as int).map_values(|id: (u32, u16)| (1usize, id)),
            decreases others.len() - j,
        {
            all.push((1usize, others[j]));
            j += 1;
            assert(all@ =~= base + others@.take(j as int).map_values(|id: (u32, u16)| (1usize, id)));
        }
        assert(others@.take(others.len() as int) == others@);
    }
    assert(all@ == stream_list(page_target, pages@, others@));
    let mut out: Vec<(usize, (u32, u16))> = Vec::new();
    let mut k: usize = 0;
    assert(all@.take(0) =~= Seq::<(usize, (u32, u16))>::empty());
    while k < all.len()
        invariant
            k <= all.len(),
            out@ == first_occurrences(all@.take(k as int)),
            forall|x: (u32, u16)| #[trigger] has_id(out@, x) == has_id(all@.take(k as int), x),
        decreases all.len() - k,
    {
        let e = all[k];
        let ghost pre = all@.take(k as int);
        let ghost next = all@.take(k + 1);
        assert(next.drop_last() == pre);
        assert(next.last() == e);
        let seen = contains_id(&out, e.1);
        let ghost old_out = out@;
        if !seen {
            out.push(e);
        }
        assert forall|x: (u32, u16)| #[trigger] has_id(out@, x) == has_id(next, x) by {
            if has_id(next, x) {
                let w = choose|w: int| 0 <= w < next.len() && (#[trigger] next[w]).1 == x;
                if w < pre.len() {
                    assert(pre[w] == next[w]);
                    assert(has_id(pre, x));
                    assert(has_id(old_out, x));
                    let v = choose|v: int| 0 <= v < old_out.len() && (#[trigger] old_out[v]).1 == x;
                    assert(out@[v] == old_out[v]);
                } else if !seen {
                    assert(out@[out@.len() - 1] == e);
                } else {
                    assert(has_id(old_out, e.1));
                }
            }
            if has_id(out@, x) {
                let v = choose|v: int| 0 <= v < out@.len() && (#[trigger] out@[v]).1 == x;
                if v < old_out.len() {
                    assert(out@[v] == old_out[v]);
                    assert(has_id(old_out, x));
                    let w = choose|w: int| 0 <= w < pre.len() && (#[trigger] pre[w]).1 == x;
                    assert(next[w] == pre[w]);
                } else {
                    assert(next[k as int] == e);
                }
            }
        }
        k += 1;
    }
    assert(all@.take(all.len() as int) == all@);
    Ok(out)
}

/// Every stream of the list is queued, and none twice: each image is written
/// out at most once, however many pages share it.
pub proof fn law_streams_queued_once(s: Seq<(usize, (u32, u16))>)
    ensures
        forall|x: (u32, u16)| #[trigger] has_id(first_occurrences(s), x) == has_id(s, x),
        forall|i: int, j: int| 0 <= i < j < first_occurrences(s).len()
            ==> (#[trigger] first_occurrences(s)[i]).1 != (#[trigger] first_occurrences(s)[j]).1,
    decreases s.len(),
{
    if s.len() > 0 {
        let pre = s.drop_last();
        let d = first_occurrences(pre);
        law_streams_queued_once(pre);
        let r = first_occurrences(s);
        assert forall|x: (u32, u16)| #[trigger] has_id(r, x) == has_id(s, x) by {
            if has_id(s, x) {
                let w = choose|w: int| 0 <= w < s.len() && (#[trigger] s[w]).1 == x;
                if w < pre.len() {
                    assert(pre[w] == s[w]);
                    assert(has_id(pre, x));
                    assert(has_id(d, x));
                    let v = choose|v: int| 0 <= v < d.len() && (#[trigger] d[v]).1 == x;
                    assert(r[v] == d[v]);
                } else if !has_id(pre, s.last().1) {
                    assert(r[r.len() - 1] == s.last());
                } else {
                    assert(has_id(d, s.last().1));
                    let v = choose|v: int| 0 <= v < d.len() && (#[trigger] d[v]).1 == x;
                    assert(r[v] == d[v]);
                }
            }
            if has_id(r, x) {
                let v = choose|v: int| 0 <= v < r.len() && (#[trigger] r[v]).1 == x;
                if v < d.len() {
                    assert(r[v] == d[v]);
                    assert(has_id(d, x));
                    let w = choose|w: int| 0 <= w < pre.len() && (#[trigger] pre[w]).1 == x;
                    assert(s[w] == pre[w]);
                } else {
                    assert(s[s.len() - 1] == s.last());
                }
            }
        }
        assert forall|i: int, j: int| 0 <= i < j < r.len() implies (#[trigger] r[i]).1 != (#[trigger] r[j]).1 by {
            if j >= d.len() {
                assert(r[j] == s.last());
                assert(r[i] == d[i]);
                if r[i].1 == r[j].1 {
                    assert(has_id(d, s.last().1));
                }
            } else {
                assert(r[i] == d[i] && r[j] == d[j]);
            }
        }
    }
}

/// The answer to extracting images: the images written, in order.
pub fn extract_images_response(file_path: &str, output_dir: &str, images: Vec<ExtractedImageInfo>) -> (r: ExtractImagesResponse)
    ensures
        r.status@ == "success"@ && r.file@ == file_path@ && r.output_dir@ == output_dir@
            && r.total_images == images@.len() && r.images@ == images@,
{
    let n = images.len();
    ExtractImagesResponse {
        status: "success".to_owned(),
        file: file_path.to_owned(),
        output_dir: output_dir.to_owned(),
        total_images: n,
        images,
    }
}

} // verus!
