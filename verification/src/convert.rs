//! Conversion of source files into resources before they are packed: images
//! become textures stored as 32 bit RGBA, and the text of mdl3d models is
//! read into its lines of coordinates and its triangle indices.
//!
//! A mdl3d file is UTF-8 text. Each line starts with a tag and a space;
//! the rest of the line holds fields separated by `/`. Lines tagged `v`
//! (vertex, three coordinates), `n` (normal, three), `u` (uv, two) and `t`
//! (tangent, four) hold floats, lines tagged `i` hold triangle indices, and
//! lines with another tag are skipped.
use vstd::prelude::*;
use vstd::utf8::valid_utf8;
use image::ImageEncoder;
use crate::packing::{LoadedTexture, utf8_valid};

verus! {

/// What the `image` crate decodes `bytes` into, its format guessed from the
/// bytes: the width, the height, whether the pixels are 8 bit RGBA, and the
/// pixels as 8 bit RGBA, four bytes each, row after row; `None` where the
/// bytes are no image it can decode.
pub uninterp spec fn decoded_image(bytes: Seq<u8>) -> Option<(u32, u32, bool, Seq<u8>)>;

/// The PNG encoding of `width` by `height` pixels of 8 bit RGBA; `None`
/// where the encoder fails.
pub uninterp spec fn png_rgba8(pixels: Seq<u8>, width: u32, height: u32) -> Option<Seq<u8>>;

/// `image::load_from_memory`: the size of the decoded image, whether it is
/// `DynamicImage::ImageRgba8`, and its pixels through `to_rgba8`, whose
/// buffer holds four bytes for each pixel.
#[verifier::external_body]
fn decode_image(bytes: &[u8]) -> (r: Option<(u32, u32, bool, Vec<u8>)>)
    ensures
        match r {
            Some(d) => decoded_image(bytes@) == Some((d.0, d.1, d.2, d.3@)) && d.3@.len() == d.0 * d.1 * 4,
            None => decoded_image(bytes@) is None,
        },
{
    match image::load_from_memory(bytes) {
        Ok(image) => Some((
            image.width(),
            image.height(),
            matches!(image, image::DynamicImage::ImageRgba8(_)),
            image.to_rgba8().into_raw(),
        )),
        Err(_) => None,
    }
}

/// `PngEncoder::write_image` with `ColorType::Rgba8`, into a new buffer:
/// the PNG file that `image::save_buffer_with_format` writes for these
/// pixels. The encoder asserts that the buffer holds four bytes a pixel.
#[verifier::external_body]
fn encode_png_rgba8(pixels: &[u8], width: u32, height: u32) -> (r: Option<Vec<u8>>)
    requires
        pixels@.len() == width * height * 4,
    ensures
        match r {
            Some(v) => png_rgba8(pixels@, width, height) == Some(v@),
            None => png_rgba8(pixels@, width, height) is None,
        },
{
    let mut out: Vec<u8> = Vec::new();
    let encoder = image::codecs::png::PngEncoder::new(&mut out);
    encoder.write_image(pixels, width, height, image::ColorType::Rgba8).ok()?;
    Some(out)
}

/// The texture of an image of `width` by `height` pixels whose file holds
/// `bytes`: where the image had to be saved again as RGBA (`rewrite`), the
/// texture holds the new bytes and the file is to be rewritten with them.
/// The size is kept in 16 bits, cut as `as u16` cuts.
pub fn texture_from_image(bytes: Vec<u8>, width: u32, height: u32, rewrite: Option<Vec<u8>>) -> (r: (
    LoadedTexture,
    bool,
))
    ensures
        r.0.width == width as u16,
        r.0.height == height as u16,
        r.1 == rewrite is Some,
        r.0.compressed_bytes@ == match rewrite {
            Some(v) => v@,
            None => bytes@,
        },
{
    let w = width as u16;
    let h = height as u16;
    match rewrite {
        Some(v) => (LoadedTexture { width: w, height: h, compressed_bytes: v }, true),
        None => (LoadedTexture { width: w, height: h, compressed_bytes: bytes }, false),
    }
}

/// The PNG that an image not stored as 8 bit RGBA is saved again as, if
/// the encoder gives one.
pub open spec fn saved_again(d: (u32, u32, bool, Seq<u8>)) -> Option<Seq<u8>> {
    png_rgba8(d.3, d.0, d.1)
}

/// Turns the bytes of an image file into a texture, making sure that every
/// texture is 32 bit RGBA: an image that is not is saved again as an RGBA
/// PNG, whose bytes the texture then holds and the file is rewritten with
/// (the flag). `None` where the image cannot be decoded or saved again.
pub fn convert_texture(bytes: Vec<u8>) -> (r: Option<(LoadedTexture, bool)>)
    ensures
        r is None <==> (decoded_image(bytes@) is None || (!decoded_image(bytes@)->Some_0.2 && saved_again(
            decoded_image(bytes@)->Some_0,
        ) is None)),
        r matches Some(t) ==> {
            let d = decoded_image(bytes@)->Some_0;
            &&& t.0.width == d.0 as u16
            &&& t.0.height == d.1 as u16
            &&& t.1 == !d.2
            &&& t.0.compressed_bytes@ == if d.2 {
                bytes@
            } else {
                saved_again(d)->Some_0
            }
        },
{
    match decode_image(bytes.as_slice()) {
        None => None,
        Some((width, height, rgba8, pixels)) => {
            if rgba8 {
                Some(texture_from_image(bytes, width, height, None))
            } else {
                match encode_png_rgba8(pixels.as_slice(), width, height) {
                    None => None,
                    Some(png) => Some(texture_from_image(bytes, width, height, Some(png))),
                }
            }
        },
    }
}

/// The kind of a mdl3d line that holds coordinates.
#[derive(Clone, Copy, PartialEq, Eq, Structural, Debug)]
pub enum Mdl3dKind {
    Vertex,
    Normal,
    Uv,
    Tangent,
}

/// A line of coordinates: its kind and the byte ranges `(start, end)` of
/// its fields, whose text is a float.
pub struct Mdl3dRecord {
    pub kind: Mdl3dKind,
    pub fields: Vec<(usize, usize)>,
}

/// The structure of a mdl3d file: its lines of coordinates, in order, and
/// the triangle indices of its `i` lines, in order.
pub struct Mdl3dText {
    pub records: Vec<Mdl3dRecord>,
    pub indices: Vec<u32>,
}

/// The lines of `b` from the line that starts at `start`, scanned from `i`,
/// as `BufRead::lines` gives them: split at each `\n`, which is dropped
/// with a `\r` just before it; a last line without `\n` counts where it is
/// not empty.
pub open spec fn line_scan(b: Seq<u8>, start: int, i: int) -> Seq<(usize, usize)>
    decreases b.len() - i,
{
    if i >= b.len() {
        if start < b.len() {
            seq![(start as usize, b.len() as usize)]
        } else {
            Seq::empty()
        }
    } else if b[i] == 10u8 {
        let end = if i > start && b[i - 1] == 13u8 { i - 1 } else { i };
        seq![(start as usize, end as usize)] + line_scan(b, i + 1, i + 1)
    } else {
        line_scan(b, start, i + 1)
    }
}

/// The byte ranges of the lines of `b`.
pub open spec fn text_lines(b: Seq<u8>) -> Seq<(usize, usize)> {
    line_scan(b, 0, 0)
}

/// The first position in `[from, to)` that holds `x`; `to` where none does.
pub open spec fn find(b: Seq<u8>, from: int, to: int, x: u8) -> int
    decreases to - from,
{
    if from >= to {
        to
    } else if b[from] == x {
        from
    } else {
        find(b, from + 1, to, x)
    }
}

/// The `/` separated fields of `[start, to)`, scanned from `i`.
pub open spec fn field_scan(b: Seq<u8>, start: int, i: int, to: int) -> Seq<(usize, usize)>
    decreases to - i,
{
    if i >= to {
        seq![(start as usize, to as usize)]
    } else if b[i] == 47u8 {
        seq![(start as usize, i as usize)] + field_scan(b, i + 1, i + 1, to)
    } else {
        field_scan(b, start, i + 1, to)
    }
}

/// Every byte is an ASCII digit.
pub open spec fn all_digits(d: Seq<u8>) -> bool {
    forall|k: int| 0 <= k < d.len() ==> 48 <= #[trigger] d[k] <= 57
}

/// The number that the decimal digits `d` write.
pub open spec fn dec_value(d: Seq<u8>) -> nat
    decreases d.len(),
{
    if d.len() == 0 {
        0
    } else {
        dec_value(d.drop_last()) * 10 + (d.last() - 48) as nat
    }
}

/// `u32::from_str`: an optional `+`, then at least one decimal digit, for
/// a number that fits in 32 bits.
pub open spec fn parse_u32(d: Seq<u8>) -> Option<u32> {
    let digits = if d.len() > 0 && d[0] == 43u8 { d.drop_first() } else { d };
    if digits.len() > 0 && all_digits(digits) && dec_value(digits) <= u32::MAX {
        Some(dec_value(digits) as u32)
    } else {
        None
    }
}

/// The numbers of the fields, where each of them is one.
pub open spec fn parse_fields_u32(b: Seq<u8>, fields: Seq<(usize, usize)>) -> Option<Seq<u32>>
    decreases fields.len(),
{
    if fields.len() == 0 {
        Some(Seq::empty())
    } else {
        match (
            parse_fields_u32(b, fields.drop_last()),
            parse_u32(b.subrange(fields.last().0 as int, fields.last().1 as int)),
        ) {
            (Some(v), Some(x)) => Some(v.push(x)),
            _ => None,
        }
    }
}

/// A line of coordinates of `kind` with its fields, which must be at least `n`.
pub open spec fn coords_line(kind: Mdl3dKind, fields: Seq<(usize, usize)>, n: nat) -> Option<
    (Seq<(Mdl3dKind, Seq<(usize, usize)>)>, Seq<u32>),
> {
    if fields.len() >= n {
        Some((seq![(kind, fields)], Seq::empty()))
    } else {
        None
    }
}

/// What the line `line` of `b` adds: its record of coordinates, or its
/// indices, or nothing; `None` where it has no space, too few coordinates,
/// or an index that is no `u32`.
pub open spec fn line_result(b: Seq<u8>, line: (usize, usize)) -> Option<
    (Seq<(Mdl3dKind, Seq<(usize, usize)>)>, Seq<u32>),
> {
    let s = line.0 as int;
    let t = line.1 as int;
    let sp = find(b, s, t, 32u8);
    if sp >= t {
        None
    } else {
        let fields = field_scan(b, sp + 1, sp + 1, t);
        let one = sp == s + 1;
        if one && b[s] == 118u8 {
            coords_line(Mdl3dKind::Vertex, fields, 3)
        } else if one && b[s] == 110u8 {
            coords_line(Mdl3dKind::Normal, fields, 3)
        } else if one && b[s] == 117u8 {
            coords_line(Mdl3dKind::Uv, fields, 2)
        } else if one && b[s] == 116u8 {
            coords_line(Mdl3dKind::Tangent, fields, 4)
        } else if one && b[s] == 105u8 {
            match parse_fields_u32(b, fields) {
                Some(v) => Some((Seq::empty(), v)),
                None => None,
            }
        } else {
            Some((Seq::empty(), Seq::empty()))
        }
    }
}

/// The records and indices of the lines `ls`, in order.
pub open spec fn parse_lines(b: Seq<u8>, ls: Seq<(usize, usize)>) -> Option<
    (Seq<(Mdl3dKind, Seq<(usize, usize)>)>, Seq<u32>),
>
    decreases ls.len(),
{
    if ls.len() == 0 {
        Some((Seq::empty(), Seq::empty()))
    } else {
        match (parse_lines(b, ls.drop_last()), line_result(b, ls.last())) {
            (Some(a), Some(c)) => Some((a.0 + c.0, a.1 + c.1)),
            _ => None,
        }
    }
}

/// The structure of the mdl3d file `b`; `None` where it is not UTF-8 or
/// one of its lines is refused.
pub open spec fn mdl3d_structure(b: Seq<u8>) -> Option<(Seq<(Mdl3dKind, Seq<(usize, usize)>)>, Seq<u32>)> {
    if valid_utf8(b) {
        parse_lines(b, text_lines(b))
    } else {
        None
    }
}

/// The lines of a scan lie in `[start, len]`, each with its start before
/// its end.
pub(crate) proof fn lemma_line_scan_bounds(b: Seq<u8>, start: int, i: int)
    requires
        0 <= start <= i,
        b.len() <= usize::MAX,
    ensures
        forall|k: int|
            0 <= k < line_scan(b, start, i).len() ==> start <= (#[trigger] line_scan(b, start, i)[k]).0
                <= line_scan(b, start, i)[k].1 <= b.len(),
    decreases b.len() - i,
{
    let ls = line_scan(b, start, i);
    if i < b.len() {
        if b[i] == 10u8 {
            let rest = line_scan(b, i + 1, i + 1);
            lemma_line_scan_bounds(b, i + 1, i + 1);
            assert forall|k: int| 0 <= k < ls.len() implies start <= (#[trigger] ls[k]).0 <= ls[k].1 <= b.len() by {
                if k > 0 {
                    assert(ls[k] == rest[k - 1]);
                }
            }
        } else {
            lemma_line_scan_bounds(b, start, i + 1);
            assert(ls == line_scan(b, start, i + 1));
        }
    } else if start < b.len() {
        assert(ls[0] == (start as usize, b.len() as usize));
    }
}

/// The fields of a scan lie in `[start, to]`, each with its start before
/// its end.
proof fn lemma_field_scan_bounds(b: Seq<u8>, start: int, i: int, to: int)
    requires
        0 <= start <= i <= to <= usize::MAX,
    ensures
        forall|k: int|
            0 <= k < field_scan(b, start, i, to).len() ==> start <= (#[trigger] field_scan(b, start, i, to)[k]).0
                <= field_scan(b, start, i, to)[k].1 <= to,
    decreases to - i,
{
    let fs = field_scan(b, start, i, to);
    if i < to {
        if b[i] == 47u8 {
            let rest = field_scan(b, i + 1, i + 1, to);
            lemma_field_scan_bounds(b, i + 1, i + 1, to);
            assert forall|k: int| 0 <= k < fs.len() implies start <= (#[trigger] fs[k]).0 <= fs[k].1 <= to by {
                if k > 0 {
                    assert(fs[k] == rest[k - 1]);
                }
            }
        } else {
            lemma_field_scan_bounds(b, start, i + 1, to);
            assert(fs == field_scan(b, start, i + 1, to));
        }
    } else {
        assert(fs[0] == (start as usize, to as usize));
    }
}

/// The byte ranges of the lines of `b` (see `text_lines`).
pub fn split_lines(b: &[u8]) -> (r: Vec<(usize, usize)>)
    ensures
        r@ == text_lines(b@),
{
    let mut out: Vec<(usize, usize)> = Vec::new();
    let mut start: usize = 0;
    let mut i: usize = 0;
    while i < b.len()
        invariant
            start <= i <= b@.len(),
            out@ + line_scan(b@, start as int, i as int) == text_lines(b@),
        decreases b@.len() - i,
    {
        if b[i] == 10u8 {
            let end = if i > start && b[i - 1] == 13u8 { i - 1 } else { i };
            proof {
                assert(line_scan(b@, start as int, i as int) == seq![(start, end)] + line_scan(
                    b@,
                    i + 1,
                    i + 1,
                ));
                assert(out@.push((start, end)) + line_scan(b@, i + 1, i + 1) =~= out@ + (seq![(start, end)]
                    + line_scan(b@, i + 1, i + 1)));
            }
            out.push((start, end));
            start = i + 1;
        }
        i = i + 1;
    }
    if start < b.len() {
        proof {
            assert(out@.push((start, b@.len() as usize)) =~= out@ + line_scan(b@, start as int, i as int));
        }
        out.push((start, b.len()));
    } else {
        proof {
            assert(out@ =~= out@ + line_scan(b@, start as int, i as int));
        }
    }
    out
}

/// The first position in `[from, to)` that holds `x`, or `to`.
fn find_byte(b: &[u8], from: usize, to: usize, x: u8) -> (r: usize)
    requires
        from <= to <= b@.len(),
    ensures
        r == find(b@, from as int, to as int, x),
        from <= r <= to,
{
    let mut i = from;
    while i < to
        invariant
            from <= i <= to <= b@.len(),
            find(b@, i as int, to as int, x) == find(b@, from as int, to as int, x),
        decreases to - i,
    {
        if b[i] == x {
            return i;
        }
        i = i + 1;
    }
    i
}

/// The `/` separated fields of `[from, to)`.
fn split_fields(b: &[u8], from: usize, to: usize) -> (r: Vec<(usize, usize)>)
    requires
        from <= to <= b@.len(),
    ensures
        r@ == field_scan(b@, from as int, from as int, to as int),
{
    let mut out: Vec<(usize, usize)> = Vec::new();
    let mut start = from;
    let mut i = from;
    while i < to
        invariant
            from <= start <= i <= to <= b@.len(),
            out@ + field_scan(b@, start as int, i as int, to as int) == field_scan(
                b@,
                from as int,
                from as int,
                to as int,
            ),
        decreases to - i,
    {
        if b[i] == 47u8 {
            proof {
                assert(out@.push((start, i)) + field_scan(b@, i + 1, i + 1, to as int) =~= out@ + (seq![
                    (start, i),
                ] + field_scan(b@, i + 1, i + 1, to as int)));
            }
            out.push((start, i));
            start = i + 1;
        }
        i = i + 1;
    }
    proof {
        assert(out@.push((start, to)) =~= out@ + field_scan(b@, start as int, i as int, to as int));
    }
    out.push((start, to));
    out
}

/// A longer run of digits writes a number at least as large.
proof fn lemma_dec_value_grows(d: Seq<u8>, k: int)
    requires
        0 <= k <= d.len(),
        all_digits(d),
    ensures
        dec_value(d.subrange(0, k)) <= dec_value(d),
    decreases d.len() - k,
{
    if k < d.len() {
        lemma_dec_value_grows(d, k + 1);
        assert(d.subrange(0, k + 1).drop_last() =~= d.subrange(0, k));
        assert(d[k] >= 48);
    } else {
        assert(d.subrange(0, k) =~= d);
    }
}

/// The `u32` that `b[from..to]` writes (see `parse_u32`).
fn parse_u32_range(b: &[u8], from: usize, to: usize) -> (r: Option<u32>)
    requires
        from <= to <= b@.len(),
    ensures
        r == parse_u32(b@.subrange(from as int, to as int)),
{
    let ghost d = b@.subrange(from as int, to as int);
    let mut i = from;
    if i < to && b[i] == 43u8 {
        i = i + 1;
    }
    let ghost digits = b@.subrange(i as int, to as int);
    proof {
        if from < to && b@[from as int] == 43u8 {
            assert(d[0] == b@[from as int]);
            assert(digits =~= d.drop_first());
        } else {
            if from < to {
                assert(d[0] == b@[from as int]);
            }
            assert(digits =~= d);
        }
        assert(parse_u32(d) == if digits.len() > 0 && all_digits(digits) && dec_value(digits) <= u32::MAX {
            Some(dec_value(digits) as u32)
        } else {
            None::<u32>
        });
    }
    if i == to {
        return None;
    }
    let first = i;
    let mut acc: u64 = 0;
    while i < to
        invariant
            first <= i <= to <= b@.len(),
            first < to,
            digits == b@.subrange(first as int, to as int),
            d == b@.subrange(from as int, to as int),
            parse_u32(d) == if digits.len() > 0 && all_digits(digits) && dec_value(digits) <= u32::MAX {
                Some(dec_value(digits) as u32)
            } else {
                None::<u32>
            },
            all_digits(b@.subrange(first as int, i as int)),
            acc == dec_value(b@.subrange(first as int, i as int)),
            acc <= u32::MAX,
        decreases to - i,
    {
        let c = b[i];
        if c < 48u8 || c > 57u8 {
            proof {
                assert(digits[i - first] == c);
            }
            return None;
        }
        proof {
            let p = b@.subrange(first as int, i + 1);
            assert(p.drop_last() =~= b@.subrange(first as int, i as int));
            assert(p.last() == c);
        }
        acc = acc * 10 + (c - 48u8) as u64;
        if acc > 0xffff_ffffu64 {
            proof {
                let p = b@.subrange(first as int, i + 1);
                if all_digits(digits) {
                    assert(digits.subrange(0, i + 1 - first) =~= p);
                    lemma_dec_value_grows(digits, i + 1 - first);
                }
            }
            return None;
        }
        i = i + 1;
    }
    proof {
        assert(b@.subrange(first as int, i as int) =~= digits);
    }
    Some(acc as u32)
}

/// The numbers of the fields (see `parse_fields_u32`).
fn parse_indices(b: &[u8], fields: &Vec<(usize, usize)>) -> (r: Option<Vec<u32>>)
    requires
        forall|k: int| 0 <= k < fields@.len() ==> (#[trigger] fields@[k]).0 <= fields@[k].1 <= b@.len(),
    ensures
        match parse_fields_u32(b@, fields@) {
            Some(v) => r matches Some(out) && out@ == v,
            None => r is None,
        },
{
    let mut out: Vec<u32> = Vec::new();
    let mut k: usize = 0;
    while k < fields.len()
        invariant
            k <= fields@.len(),
            forall|j: int| 0 <= j < fields@.len() ==> (#[trigger] fields@[j]).0 <= fields@[j].1 <= b@.len(),
            parse_fields_u32(b@, fields@.subrange(0, k as int)) == Some(out@),
        decreases fields@.len() - k,
    {
        let (a, t) = fields[k];
        proof {
            assert(fields@.subrange(0, k + 1).drop_last() =~= fields@.subrange(0, k as int));
        }
        match parse_u32_range(b, a, t) {
            Some(x) => {
                out.push(x);
            },
            None => {
                proof {
                    lemma_fields_none_extends(b@, fields@, k + 1);
                }
                return None;
            },
        }
        k = k + 1;
    }
    proof {
        assert(fields@.subrange(0, fields@.len() as int) =~= fields@);
    }
    Some(out)
}

/// Where a prefix of the fields has no numbers, neither have all of them.
proof fn lemma_fields_none_extends(b: Seq<u8>, fields: Seq<(usize, usize)>, n: int)
    requires
        0 <= n <= fields.len(),
        parse_fields_u32(b, fields.subrange(0, n)) is None,
    ensures
        parse_fields_u32(b, fields) is None,
    decreases fields.len() - n,
{
    if n < fields.len() {
        assert(fields.subrange(0, n + 1).drop_last() =~= fields.subrange(0, n));
        lemma_fields_none_extends(b, fields, n + 1);
    } else {
        assert(fields.subrange(0, n) =~= fields);
    }
}

/// Where a prefix of the lines is refused, so is the whole file.
proof fn lemma_lines_none_extends(b: Seq<u8>, ls: Seq<(usize, usize)>, n: int)
    requires
        0 <= n <= ls.len(),
        parse_lines(b, ls.subrange(0, n)) is None,
    ensures
        parse_lines(b, ls) is None,
    decreases ls.len() - n,
{
    if n < ls.len() {
        assert(ls.subrange(0, n + 1).drop_last() =~= ls.subrange(0, n));
        lemma_lines_none_extends(b, ls, n + 1);
    } else {
        assert(ls.subrange(0, n) =~= ls);
    }
}

/// Reads the structure of a mdl3d file (see `mdl3d_structure`): its lines
/// of coordinates, whose fields are left to be read as floats, and its
/// triangle indices. `None` where the file is not UTF-8, or a line has no
/// space, too few coordinates for its tag, or an index that is no `u32`.
pub fn parse_mdl3d(bytes: &[u8]) -> (r: Option<Mdl3dText>)
    ensures
        match mdl3d_structure(bytes@) {
            None => r is None,
            Some(m) => r matches Some(t) && t.indices@ == m.1 && t.records@.len() == m.0.len() && forall|k: int|
                0 <= k < m.0.len() ==> (#[trigger] t.records@[k]).kind == m.0[k].0 && t.records@[k].fields@
                    == m.0[k].1,
        },
{
    if !utf8_valid(bytes, 0) {
        proof {
            assert(bytes@.subrange(0, bytes@.len() as int) =~= bytes@);
        }
        return None;
    }
    proof {
        assert(bytes@.subrange(0, bytes@.len() as int) =~= bytes@);
    }
    let lines = split_lines(bytes);
    let len = bytes.len();
    proof {
        assert(bytes@.len() == len);
        lemma_line_scan_bounds(bytes@, 0, 0);
    }
    let mut records: Vec<Mdl3dRecord> = Vec::new();
    let mut indices: Vec<u32> = Vec::new();
    let ghost mut recs: Seq<(Mdl3dKind, Seq<(usize, usize)>)> = Seq::empty();
    let mut n: usize = 0;
    while n < lines.len()
        invariant
            n <= lines@.len(),
            lines@ == text_lines(bytes@),
            forall|k: int|
                0 <= k < lines@.len() ==> (#[trigger] lines@[k]).0 <= lines@[k].1 <= bytes@.len(),
            parse_lines(bytes@, lines@.subrange(0, n as int)) == Some((recs, indices@)),
            records@.len() == recs.len(),
            forall|k: int|
                0 <= k < recs.len() ==> (#[trigger] records@[k]).kind == recs[k].0 && records@[k].fields@
                    == recs[k].1,
        decreases lines@.len() - n,
    {
        let (s, t) = lines[n];
        proof {
            assert(lines@.subrange(0, n + 1).drop_last() =~= lines@.subrange(0, n as int));
            assert(lines@.subrange(0, n + 1).last() == (s, t));
        }
        let sp = find_byte(bytes, s, t, 32u8);
        if sp >= t {
            proof {
                lemma_lines_none_extends(bytes@, lines@, n + 1);
            }
            return None;
        }
        let fields = split_fields(bytes, sp + 1, t);
        proof {
            lemma_field_scan_bounds(bytes@, sp + 1, sp + 1, t as int);
        }
        let one = sp == s + 1;
        let tag = bytes[s];
        let kind: Option<(Mdl3dKind, usize)> = if one && tag == 118u8 {
            Some((Mdl3dKind::Vertex, 3))
        } else if one && tag == 110u8 {
            Some((Mdl3dKind::Normal, 3))
        } else if one && tag == 117u8 {
            Some((Mdl3dKind::Uv, 2))
        } else if one && tag == 116u8 {
            Some((Mdl3dKind::Tangent, 4))
        } else {
            None
        };
        match kind {
            Some((k, needed)) => {
                if fields.len() < needed {
                    proof {
                        lemma_lines_none_extends(bytes@, lines@, n + 1);
                    }
                    return None;
                }
                proof {
                    recs = recs + seq![(k, fields@)];
                }
                records.push(Mdl3dRecord { kind: k, fields });
                proof {
                    assert(indices@ + Seq::<u32>::empty() =~= indices@);
                }
            },
            None => {
                if one && tag == 105u8 {
                    match parse_indices(bytes, &fields) {
                        Some(v) => {
                            let mut more = v;
                            indices.append(&mut more);
                            proof {
                                assert(recs + Seq::<(Mdl3dKind, Seq<(usize, usize)>)>::empty() =~= recs);
                            }
                        },
                        None => {
                            proof {
                                lemma_lines_none_extends(bytes@, lines@, n + 1);
                            }
                            return None;
                        },
                    }
                } else {
                    proof {
                        assert(recs + Seq::<(Mdl3dKind, Seq<(usize, usize)>)>::empty() =~= recs);
                        assert(indices@ + Seq::<u32>::empty() =~= indices@);
                    }
                }
            },
        }
        n = n + 1;
    }
    proof {
        assert(lines@.subrange(0, lines@.len() as int) =~= lines@);
    }
    Some(Mdl3dText { records, indices })
}

} // verus!
