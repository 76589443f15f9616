//! Packed resource files: the byte layouts of models, shaders, textures and
//! fonts, how they are written and how they are read back.
//!
//! Floating point components are held as their IEEE-754 bit patterns (the
//! value of `f32::to_bits`), which is exactly what the files store.
use vstd::prelude::*;
use vstd::string::StringSliceAdditionalSpecFns;
use vstd::utf8::{valid_utf8, decode_utf8, encode_utf8};
use crate::bytes::{str_eq, u16_bytes, u32_bytes, le_u16_at, le_u32_at, read_u16_at, read_u32_at, push_u16, push_u32, lemma_u32_bytes_of_read, lemma_u16_roundtrip, lemma_u32_roundtrip};

verus! {

/// A loaded model: positions, normals, tangents, texture coordinates and
/// triangle indices.
#[derive(Debug)]
pub struct LoadedModel {
    pub vertices: Vec<(u32, u32, u32)>,
    pub normals: Vec<(u32, u32, u32)>,
    pub tangents: Vec<(u32, u32, u32, u32)>,
    pub uvs: Vec<(u32, u32)>,
    pub indices: Vec<u32>,
}

/// A loaded texture: its size and its still compressed image bytes.
pub struct LoadedTexture {
    pub width: u16,
    pub height: u16,
    pub compressed_bytes: Vec<u8>,
}

/// A loaded sub shader: its source and its kind (vertex, fragment, compute, function).
#[derive(Clone, Debug)]
pub struct LoadedSubShader {
    pub source: String,
    pub subshader_type: u8,
}

/// A sound effect.
pub struct LoadedSoundEffect {}

/// One character of a bitmap font and the corners of its glyph.
pub struct LoadedChar {
    pub id: u8,
    pub min: (u32, u32),
    pub max: (u32, u32),
}

/// A bitmap font.
pub struct LoadedFont {
    pub dimensions: (u32, u32),
    pub texture_pixels: Vec<u8>,
    pub chars: Vec<LoadedChar>,
}

/// A loaded resource.
pub enum Resource {
    /// No resource (the packer found nothing it knows how to convert).
    Empty,
    Model(LoadedModel),
    Texture(LoadedTexture, String),
    Shader(LoadedSubShader, String),
    Sound(LoadedSoundEffect),
    Font(LoadedFont, String),
    /// Raw bytes that are packed as they are.
    Bytes(Vec<u8>),
}

impl Resource {
    /// The empty resource.
    pub fn default() -> (r: Resource)
        ensures
            r is Empty,
    {
        Resource::Empty
    }
}

/// The bytes of three floats.
pub open spec fn vec3_bytes(v: (u32, u32, u32)) -> Seq<u8> {
    u32_bytes(v.0) + u32_bytes(v.1) + u32_bytes(v.2)
}

/// The bytes of four floats.
pub open spec fn vec4_bytes(v: (u32, u32, u32, u32)) -> Seq<u8> {
    u32_bytes(v.0) + u32_bytes(v.1) + u32_bytes(v.2) + u32_bytes(v.3)
}

/// The bytes of two floats.
pub open spec fn vec2_bytes(v: (u32, u32)) -> Seq<u8> {
    u32_bytes(v.0) + u32_bytes(v.1)
}

/// The bytes of a list of three float vectors, one after the other.
pub open spec fn vec3s_bytes(s: Seq<(u32, u32, u32)>) -> Seq<u8>
    decreases s.len(),
{
    if s.len() == 0 {
        Seq::empty()
    } else {
        vec3s_bytes(s.drop_last()) + vec3_bytes(s.last())
    }
}

/// The bytes of a list of four float vectors, one after the other.
pub open spec fn vec4s_bytes(s: Seq<(u32, u32, u32, u32)>) -> Seq<u8>
    decreases s.len(),
{
    if s.len() == 0 {
        Seq::empty()
    } else {
        vec4s_bytes(s.drop_last()) + vec4_bytes(s.last())
    }
}

/// The bytes of a list of two float vectors, one after the other.
pub open spec fn vec2s_bytes(s: Seq<(u32, u32)>) -> Seq<u8>
    decreases s.len(),
{
    if s.len() == 0 {
        Seq::empty()
    } else {
        vec2s_bytes(s.drop_last()) + vec2_bytes(s.last())
    }
}

/// The bytes of a list of 32 bit numbers, one after the other.
pub open spec fn u32s_bytes(s: Seq<u32>) -> Seq<u8>
    decreases s.len(),
{
    if s.len() == 0 {
        Seq::empty()
    } else {
        u32s_bytes(s.drop_last()) + u32_bytes(s.last())
    }
}

/// The packed form of a model: the vertex and index counts, then positions,
/// normals, tangents, texture coordinates and indices.
pub open spec fn model_bytes(m: LoadedModel) -> Seq<u8> {
    u32_bytes(m.vertices@.len() as u32) + u32_bytes(m.indices@.len() as u32) + vec3s_bytes(
        m.vertices@,
    ) + vec3s_bytes(m.normals@) + vec4s_bytes(m.tangents@) + vec2s_bytes(m.uvs@) + u32s_bytes(
        m.indices@,
    )
}

/// A model whose attribute lists all have one entry per vertex, and whose
/// counts fit the 32 bit fields of the packed form.
pub open spec fn model_well_formed(m: LoadedModel) -> bool {
    &&& m.normals@.len() == m.vertices@.len()
    &&& m.tangents@.len() == m.vertices@.len()
    &&& m.uvs@.len() == m.vertices@.len()
    &&& m.vertices@.len() <= u32::MAX
    &&& m.indices@.len() <= u32::MAX
}

/// The packed form of a sub shader: its kind, then the UTF-8 bytes of its source.
pub open spec fn shader_bytes(s: LoadedSubShader) -> Seq<u8> {
    seq![s.subshader_type] + encode_utf8(s.source@)
}

/// The packed form of a texture: width, height, then the compressed image.
pub open spec fn texture_bytes(t: LoadedTexture) -> Seq<u8> {
    u16_bytes(t.width) + u16_bytes(t.height) + t.compressed_bytes@
}

/// The number of bytes one vertex takes in a packed model.
pub open spec fn vertex_stride() -> int {
    48
}

proof fn lemma_vec3s_push(s: Seq<(u32, u32, u32)>, v: (u32, u32, u32))
    ensures
        vec3s_bytes(s.push(v)) == vec3s_bytes(s) + vec3_bytes(v),
{
    assert(s.push(v).drop_last() =~= s);
}

proof fn lemma_vec4s_push(s: Seq<(u32, u32, u32, u32)>, v: (u32, u32, u32, u32))
    ensures
        vec4s_bytes(s.push(v)) == vec4s_bytes(s) + vec4_bytes(v),
{
    assert(s.push(v).drop_last() =~= s);
}

proof fn lemma_vec2s_push(s: Seq<(u32, u32)>, v: (u32, u32))
    ensures
        vec2s_bytes(s.push(v)) == vec2s_bytes(s) + vec2_bytes(v),
{
    assert(s.push(v).drop_last() =~= s);
}

proof fn lemma_u32s_push(s: Seq<u32>, v: u32)
    ensures
        u32s_bytes(s.push(v)) == u32s_bytes(s) + u32_bytes(v),
{
    assert(s.push(v).drop_last() =~= s);
}

proof fn lemma_vec3s_len(s: Seq<(u32, u32, u32)>)
    ensures
        vec3s_bytes(s).len() == 12 * s.len(),
    decreases s.len(),
{
    if s.len() > 0 {
        lemma_vec3s_len(s.drop_last());
    }
}

proof fn lemma_vec4s_len(s: Seq<(u32, u32, u32, u32)>)
    ensures
        vec4s_bytes(s).len() == 16 * s.len(),
    decreases s.len(),
{
    if s.len() > 0 {
        lemma_vec4s_len(s.drop_last());
    }
}

proof fn lemma_vec2s_len(s: Seq<(u32, u32)>)
    ensures
        vec2s_bytes(s).len() == 8 * s.len(),
    decreases s.len(),
{
    if s.len() > 0 {
        lemma_vec2s_len(s.drop_last());
    }
}

proof fn lemma_u32s_len(s: Seq<u32>)
    ensures
        u32s_bytes(s).len() == 4 * s.len(),
    decreases s.len(),
{
    if s.len() > 0 {
        lemma_u32s_len(s.drop_last());
    }
}

/// Reads `count` three float vectors starting at `pos`.
fn read_vec3s(bytes: &[u8], pos: usize, count: usize) -> (r: Vec<(u32, u32, u32)>)
    requires
        pos + 12 * count <= bytes@.len(),
    ensures
        r@.len() == count,
        vec3s_bytes(r@) == bytes@.subrange(pos as int, pos + 12 * count),
{
    let mut out: Vec<(u32, u32, u32)> = Vec::new();
    let mut k: usize = 0;
    let len = bytes.len();
    while k < count
        invariant
            len == bytes@.len(),
            pos + 12 * count <= bytes@.len(),
            k <= count,
            out@.len() == k,
            vec3s_bytes(out@) == bytes@.subrange(pos as int, pos + 12 * k),
        decreases count - k,
    {
        let p = pos + 12 * k;
        let x = read_u32_at(bytes, p);
        let y = read_u32_at(bytes, p + 4);
        let z = read_u32_at(bytes, p + 8);
        proof {
            lemma_u32_bytes_of_read(bytes@, p as int);
            lemma_u32_bytes_of_read(bytes@, p + 4);
            lemma_u32_bytes_of_read(bytes@, p + 8);
            lemma_vec3s_push(out@, (x, y, z));
            assert(bytes@.subrange(pos as int, p + 12) =~= bytes@.subrange(pos as int, p as int)
                + bytes@.subrange(p as int, p + 4) + bytes@.subrange(p + 4, p + 8)
                + bytes@.subrange(p + 8, p + 12));
        }
        out.push((x, y, z));
        k = k + 1;
    }
    out
}

/// Reads `count` four float vectors starting at `pos`.
fn read_vec4s(bytes: &[u8], pos: usize, count: usize) -> (r: Vec<(u32, u32, u32, u32)>)
    requires
        pos + 16 * count <= bytes@.len(),
    ensures
        r@.len() == count,
        vec4s_bytes(r@) == bytes@.subrange(pos as int, pos + 16 * count),
{
    let mut out: Vec<(u32, u32, u32, u32)> = Vec::new();
    let mut k: usize = 0;
    let len = bytes.len();
    while k < count
        invariant
            len == bytes@.len(),
            pos + 16 * count <= bytes@.len(),
            k <= count,
            out@.len() == k,
            vec4s_bytes(out@) == bytes@.subrange(pos as int, pos + 16 * k),
        decreases count - k,
    {
        let p = pos + 16 * k;
        let x = read_u32_at(bytes, p);
        let y = read_u32_at(bytes, p + 4);
        let z = read_u32_at(bytes, p + 8);
        let w = read_u32_at(bytes, p + 12);
        proof {
            lemma_u32_bytes_of_read(bytes@, p as int);
            lemma_u32_bytes_of_read(bytes@, p + 4);
            lemma_u32_bytes_of_read(bytes@, p + 8);
            lemma_u32_bytes_of_read(bytes@, p + 12);
            lemma_vec4s_push(out@, (x, y, z, w));
            assert(bytes@.subrange(pos as int, p + 16) =~= bytes@.subrange(pos as int, p as int)
                + bytes@.subrange(p as int, p + 4) + bytes@.subrange(p + 4, p + 8)
                + bytes@.subrange(p + 8, p + 12) + bytes@.subrange(p + 12, p + 16));
        }
        out.push((x, y, z, w));
        k = k + 1;
    }
    out
}

/// Reads `count` two float vectors starting at `pos`.
fn read_vec2s(bytes: &[u8], pos: usize, count: usize) -> (r: Vec<(u32, u32)>)
    requires
        pos + 8 * count <= bytes@.len(),
    ensures
        r@.len() == count,
        vec2s_bytes(r@) == bytes@.subrange(pos as int, pos + 8 * count),
{
    let mut out: Vec<(u32, u32)> = Vec::new();
    let mut k: usize = 0;
    let len = bytes.len();
    while k < count
        invariant
            len == bytes@.len(),
            pos + 8 * count <= bytes@.len(),
            k <= count,
            out@.len() == k,
            vec2s_bytes(out@) == bytes@.subrange(pos as int, pos + 8 * k),
        decreases count - k,
    {
        let p = pos + 8 * k;
        let x = read_u32_at(bytes, p);
        let y = read_u32_at(bytes, p + 4);
        proof {
            lemma_u32_bytes_of_read(bytes@, p as int);
            lemma_u32_bytes_of_read(bytes@, p + 4);
            lemma_vec2s_push(out@, (x, y));
            assert(bytes@.subrange(pos as int, p + 8) =~= bytes@.subrange(pos as int, p as int)
                + bytes@.subrange(p as int, p + 4) + bytes@.subrange(p + 4, p + 8));
        }
        out.push((x, y));
        k = k + 1;
    }
    out
}

/// Reads `count` 32 bit numbers starting at `pos`.
fn read_u32s(bytes: &[u8], pos: usize, count: usize) -> (r: Vec<u32>)
    requires
        pos + 4 * count <= bytes@.len(),
    ensures
        r@.len() == count,
        u32s_bytes(r@) == bytes@.subrange(pos as int, pos + 4 * count),
{
    let mut out: Vec<u32> = Vec::new();
    let mut k: usize = 0;
    let len = bytes.len();
    while k < count
        invariant
            len == bytes@.len(),
            pos + 4 * count <= bytes@.len(),
            k <= count,
            out@.len() == k,
            u32s_bytes(out@) == bytes@.subrange(pos as int, pos + 4 * k),
        decreases count - k,
    {
        let p = pos + 4 * k;
        let x = read_u32_at(bytes, p);
        proof {
            lemma_u32_bytes_of_read(bytes@, p as int);
            lemma_u32s_push(out@, x);
            assert(bytes@.subrange(pos as int, p + 4) =~= bytes@.subrange(pos as int, p as int)
                + bytes@.subrange(p as int, p + 4));
        }
        out.push(x);
        k = k + 1;
    }
    out
}

/// The vertex count stored at the start of a packed model.
pub open spec fn stored_vertex_count(b: Seq<u8>) -> int {
    le_u32_at(b, 0) as int
}

/// The index count stored at the start of a packed model.
pub open spec fn stored_index_count(b: Seq<u8>) -> int {
    le_u32_at(b, 4) as int
}

/// Whether the vertex data a packed model announces is all present.
pub open spec fn model_vertices_present(b: Seq<u8>) -> bool {
    b.len() - 8 >= vertex_stride() * stored_vertex_count(b)
}

/// Packed model bytes that the reader accepts without failing: the two
/// counts are present and, where the vertex data is complete, so are the
/// indices.
pub open spec fn model_readable(b: Seq<u8>) -> bool {
    &&& b.len() >= 8
    &&& model_vertices_present(b) ==> b.len() - 8 - vertex_stride() * stored_vertex_count(b) >= 4
        * stored_index_count(b)
}

/// `m` is the model stored at the start of `b`.
pub open spec fn model_decoded(m: LoadedModel, b: Seq<u8>) -> bool {
    let vs = stored_vertex_count(b);
    let ts = stored_index_count(b);
    &&& m.vertices@.len() == vs
    &&& m.normals@.len() == vs
    &&& m.tangents@.len() == vs
    &&& m.uvs@.len() == vs
    &&& m.indices@.len() == ts
    &&& 8 + vertex_stride() * vs + 4 * ts <= b.len()
    &&& model_bytes(m) == b.subrange(0, 8 + vertex_stride() * vs + 4 * ts)
}

/// Reads a packed model.
///
/// Returns `None` when the file ends inside the vertex data; the file must
/// hold the two counts and, after complete vertex data, all indices.
pub fn load_model(bytes: &[u8]) -> (r: Option<Resource>)
    requires
        model_readable(bytes@),
    ensures
        r is Some <==> model_vertices_present(bytes@),
        r matches Some(res) ==> (res matches Resource::Model(m) && model_decoded(m, bytes@)),
{
    let len = bytes.len();
    let vs = read_u32_at(bytes, 0);
    let ts = read_u32_at(bytes, 4);
    let avail = len - 8;
    if avail / 48 < vs as usize {
        proof {
            assert(avail < 48 * (vs as int)) by (nonlinear_arith)
                requires avail / 48 < vs as int, avail >= 0;
        }
        return None;
    }
    let n = vs as usize;
    let t = ts as usize;
    proof {
        assert(48 * (n as int) <= avail) by (nonlinear_arith)
            requires avail / 48 >= n as int, avail >= 0;
    }
    let vertices = read_vec3s(bytes, 8, n);
    let normals = read_vec3s(bytes, 8 + 12 * n, n);
    let tangents = read_vec4s(bytes, 8 + 24 * n, n);
    let uvs = read_vec2s(bytes, 8 + 40 * n, n);
    let indices = read_u32s(bytes, 8 + 48 * n, t);
    let m = LoadedModel { vertices, normals, tangents, uvs, indices };
    proof {
        let b = bytes@;
        lemma_u32_bytes_of_read(b, 0);
        lemma_u32_bytes_of_read(b, 4);
        assert(m.vertices@.len() as u32 == vs);
        assert(m.indices@.len() as u32 == ts);
        assert(b.subrange(0, 8 + 48 * n + 4 * t) =~= b.subrange(0, 4) + b.subrange(4, 8)
            + b.subrange(8, 8 + 12 * n) + b.subrange(8 + 12 * n, 8 + 24 * n) + b.subrange(
            8 + 24 * n,
            8 + 40 * n,
        ) + b.subrange(8 + 40 * n, 8 + 48 * n) + b.subrange(8 + 48 * n, 8 + 48 * n + 4 * t));
    }
    Some(Resource::Model(m))
}

/// Packs a model: counts, positions, normals, tangents, texture coordinates, indices.
pub fn pack_model(model: LoadedModel) -> (r: Vec<u8>)
    ensures
        r@ == model_bytes(model),
{
    let mut out: Vec<u8> = Vec::new();
    push_u32(&mut out, model.vertices.len() as u32);
    push_u32(&mut out, model.indices.len() as u32);
    let ghost head = out@;
    let mut i: usize = 0;
    while i < model.vertices.len()
        invariant
            i <= model.vertices@.len(),
            out@ == head + vec3s_bytes(model.vertices@.subrange(0, i as int)),
        decreases model.vertices@.len() - i,
    {
        let v = model.vertices[i];
        proof {
            assert(model.vertices@.subrange(0, i + 1) =~= model.vertices@.subrange(0, i as int).push(v));
            lemma_vec3s_push(model.vertices@.subrange(0, i as int), v);
        }
        push_u32(&mut out, v.0);
        push_u32(&mut out, v.1);
        push_u32(&mut out, v.2);
        i = i + 1;
    }
    assert(model.vertices@.subrange(0, model.vertices@.len() as int) =~= model.vertices@);
    let ghost head = out@;
    let mut i: usize = 0;
    while i < model.normals.len()
        invariant
            i <= model.normals@.len(),
            out@ == head + vec3s_bytes(model.normals@.subrange(0, i as int)),
        decreases model.normals@.len() - i,
    {
        let v = model.normals[i];
        proof {
            assert(model.normals@.subrange(0, i + 1) =~= model.normals@.subrange(0, i as int).push(v));
            lemma_vec3s_push(model.normals@.subrange(0, i as int), v);
        }
        push_u32(&mut out, v.0);
        push_u32(&mut out, v.1);
        push_u32(&mut out, v.2);
        i = i + 1;
    }
    assert(model.normals@.subrange(0, model.normals@.len() as int) =~= model.normals@);
    let ghost head = out@;
    let mut i: usize = 0;
    while i < model.tangents.len()
        invariant
            i <= model.tangents@.len(),
            out@ == head + vec4s_bytes(model.tangents@.subrange(0, i as int)),
        decreases model.tangents@.len() - i,
    {
        let v = model.tangents[i];
        proof {
            assert(model.tangents@.subrange(0, i + 1) =~= model.tangents@.subrange(0, i as int).push(v));
            lemma_vec4s_push(model.tangents@.subrange(0, i as int), v);
        }
        push_u32(&mut out, v.0);
        push_u32(&mut out, v.1);
        push_u32(&mut out, v.2);
        push_u32(&mut out, v.3);
        i = i + 1;
    }
    assert(model.tangents@.subrange(0, model.tangents@.len() as int) =~= model.tangents@);
    let ghost head = out@;
    let mut i: usize = 0;
    while i < model.uvs.len()
        invariant
            i <= model.uvs@.len(),
            out@ == head + vec2s_bytes(model.uvs@.subrange(0, i as int)),
        decreases model.uvs@.len() - i,
    {
        let v = model.uvs[i];
        proof {
            assert(model.uvs@.subrange(0, i + 1) =~= model.uvs@.subrange(0, i as int).push(v));
            lemma_vec2s_push(model.uvs@.subrange(0, i as int), v);
        }
        push_u32(&mut out, v.0);
        push_u32(&mut out, v.1);
        i = i + 1;
    }
    assert(model.uvs@.subrange(0, model.uvs@.len() as int) =~= model.uvs@);
    let ghost head = out@;
    let mut i: usize = 0;
    while i < model.indices.len()
        invariant
            i <= model.indices@.len(),
            out@ == head + u32s_bytes(model.indices@.subrange(0, i as int)),
        decreases model.indices@.len() - i,
    {
        let v = model.indices[i];
        proof {
            assert(model.indices@.subrange(0, i + 1) =~= model.indices@.subrange(0, i as int).push(v));
            lemma_u32s_push(model.indices@.subrange(0, i as int), v);
        }
        push_u32(&mut out, v);
        i = i + 1;
    }
    assert(model.indices@.subrange(0, model.indices@.len() as int) =~= model.indices@);
    out
}

/// `String::from_utf8`: the string whose UTF-8 encoding is `bytes`, when
/// `bytes` is valid UTF-8.
#[verifier::external_body]
fn string_from_utf8(bytes: Vec<u8>) -> (r: Option<String>)
    ensures
        r is Some <==> valid_utf8(bytes@),
        r matches Some(s) ==> s@ == decode_utf8(bytes@),
{
    String::from_utf8(bytes).ok()
}

/// Whether `bytes[from..]` is valid UTF-8.
pub(crate) fn utf8_valid(bytes: &[u8], from: usize) -> (r: bool)
    requires
        from <= bytes@.len(),
    ensures
        r == valid_utf8(bytes@.subrange(from as int, bytes@.len() as int)),
{
    string_from_utf8(tail_from(bytes, from)).is_some()
}

/// Copies `bytes[from..]` into a new vector.
pub(crate) fn tail_from(bytes: &[u8], from: usize) -> (r: Vec<u8>)
    requires
        from <= bytes@.len(),
    ensures
        r@ == bytes@.subrange(from as int, bytes@.len() as int),
{
    let mut out: Vec<u8> = Vec::new();
    let mut i = from;
    while i < bytes.len()
        invariant
            from <= i <= bytes@.len(),
            out@ == bytes@.subrange(from as int, i as int),
        decreases bytes@.len() - i,
    {
        out.push(bytes[i]);
        assert(bytes@.subrange(from as int, i + 1) =~= bytes@.subrange(from as int, i as int).push(
            bytes@[i as int],
        ));
        i = i + 1;
    }
    out
}

/// Packed sub shader bytes that the reader accepts without failing: a known
/// kind and a UTF-8 source.
pub open spec fn shader_readable(b: Seq<u8>) -> bool {
    b.len() > 0 ==> b[0] <= 2 && valid_utf8(b.subrange(1, b.len() as int))
}

/// Reads a packed sub shader (vertex, fragment or compute); `None` for an empty file.
pub fn load_shader(bytes: &[u8], local_path: String) -> (r: Option<Resource>)
    requires
        shader_readable(bytes@),
    ensures
        r is Some <==> bytes@.len() > 0,
        r matches Some(res) ==> (res matches Resource::Shader(sh, name) && sh.subshader_type
            == bytes@[0] && sh.source@ == decode_utf8(bytes@.subrange(1, bytes@.len() as int))
            && name == local_path),
{
    if bytes.len() == 0 {
        return None;
    }
    let shader_type = bytes[0];
    let rest = tail_from(bytes, 1);
    match string_from_utf8(rest) {
        Some(source) => Some(
            Resource::Shader(LoadedSubShader { source, subshader_type: shader_type }, local_path),
        ),
        None => {
            proof {
                assert(false);
            }
            None
        },
    }
}

/// Packs a sub shader: its kind, then the UTF-8 bytes of its source.
pub fn pack_shader(shader: LoadedSubShader) -> (r: Vec<u8>)
    ensures
        r@ == shader_bytes(shader),
{
    let mut out: Vec<u8> = Vec::new();
    out.push(shader.subshader_type);
    let src = shader.source.as_str().as_bytes();
    let mut i: usize = 0;
    while i < src.len()
        invariant
            src@ == encode_utf8(shader.source@),
            i <= src@.len(),
            out@ == seq![shader.subshader_type] + src@.subrange(0, i as int),
        decreases src@.len() - i,
    {
        out.push(src[i]);
        assert(src@.subrange(0, i + 1) =~= src@.subrange(0, i as int).push(src@[i as int]));
        i = i + 1;
    }
    assert(src@.subrange(0, src@.len() as int) =~= src@);
    out
}

/// Reads a packed texture: width, height, then the compressed image.
pub fn load_texture(bytes: &[u8], local_path: String) -> (r: Option<Resource>)
    requires
        bytes@.len() >= 4,
    ensures
        r matches Some(res) && res matches Resource::Texture(t, name) && t.width == le_u16_at(
            bytes@,
            0,
        ) && t.height == le_u16_at(bytes@, 2) && t.compressed_bytes@ == bytes@.subrange(
            4,
            bytes@.len() as int,
        ) && name == local_path,
{
    let width = read_u16_at(bytes, 0);
    let height = read_u16_at(bytes, 2);
    let compressed_bytes = tail_from(bytes, 4);
    Some(Resource::Texture(LoadedTexture { width, height, compressed_bytes }, local_path))
}

/// Packs a texture: width, height, then the compressed image bytes.
pub fn pack_texture(texture: LoadedTexture) -> (r: Vec<u8>)
    ensures
        r@ == texture_bytes(texture),
{
    let mut out: Vec<u8> = Vec::new();
    push_u16(&mut out, texture.width);
    push_u16(&mut out, texture.height);
    let ghost head = out@;
    let mut i: usize = 0;
    while i < texture.compressed_bytes.len()
        invariant
            i <= texture.compressed_bytes@.len(),
            out@ == head + texture.compressed_bytes@.subrange(0, i as int),
        decreases texture.compressed_bytes@.len() - i,
    {
        out.push(texture.compressed_bytes[i]);
        assert(texture.compressed_bytes@.subrange(0, i + 1) =~= texture.compressed_bytes@.subrange(
            0,
            i as int,
        ).push(texture.compressed_bytes@[i as int]));
        i = i + 1;
    }
    assert(texture.compressed_bytes@.subrange(0, texture.compressed_bytes@.len() as int)
        =~= texture.compressed_bytes@);
    out
}

/// The number of pixels a packed font announces.
pub open spec fn font_pixel_count(b: Seq<u8>) -> int {
    le_u32_at(b, 0) as int * le_u32_at(b, 4) as int
}

/// The number of characters a packed font announces.
pub open spec fn font_char_count(b: Seq<u8>) -> int {
    b[8 + font_pixel_count(b)] as int
}

/// The character stored at `q` in a packed font.
pub open spec fn char_at(b: Seq<u8>, q: int) -> LoadedChar {
    LoadedChar {
        id: b[q],
        min: (le_u32_at(b, q + 1), le_u32_at(b, q + 5)),
        max: (le_u32_at(b, q + 9), le_u32_at(b, q + 13)),
    }
}

/// Packed font bytes that the reader accepts without failing: the size, the
/// pixels (whose count fits 32 bits), the character count and every character.
pub open spec fn font_readable(b: Seq<u8>) -> bool {
    &&& b.len() >= 8
    &&& font_pixel_count(b) <= u32::MAX
    &&& b.len() >= 9 + font_pixel_count(b)
    &&& b.len() >= 9 + font_pixel_count(b) + 17 * font_char_count(b)
}

/// Reads a packed bitmap font: width and height, the pixels, then the
/// characters. The font's own dimensions are left at zero.
pub fn load_font(bytes: &[u8], name: String) -> (r: Option<Resource>)
    requires
        font_readable(bytes@),
    ensures
        r matches Some(res) && res matches Resource::Font(f, n) && n == name && f.dimensions == (
            0u32,
            0u32,
        ) && f.texture_pixels@ == bytes@.subrange(8, 8 + font_pixel_count(bytes@))
            && f.chars@.len() == font_char_count(bytes@) && (forall|i: int|
            0 <= i < f.chars@.len() ==> #[trigger] f.chars@[i] == char_at(
                bytes@,
                9 + font_pixel_count(bytes@) + 17 * i,
            )),
{
    let len = bytes.len();
    let width = read_u32_at(bytes, 0);
    let height = read_u32_at(bytes, 4);
    let pixels_count = width * height;
    let mut texture_pixels: Vec<u8> = Vec::new();
    let mut i: u32 = 0;
    while i < pixels_count
        invariant
            len == bytes@.len(),
            pixels_count as int == font_pixel_count(bytes@),
            font_readable(bytes@),
            i <= pixels_count,
            texture_pixels@ == bytes@.subrange(8, 8 + i),
        decreases pixels_count - i,
    {
        texture_pixels.push(bytes[8 + i as usize]);
        assert(bytes@.subrange(8, 8 + i + 1) =~= bytes@.subrange(8, 8 + i).push(
            bytes@[8 + i],
        ));
        i = i + 1;
    }
    let base = 8 + pixels_count as usize;
    let char_count = bytes[base];
    let mut chars: Vec<LoadedChar> = Vec::new();
    let mut k: u8 = 0;
    while k < char_count
        invariant
            len == bytes@.len(),
            pixels_count as int == font_pixel_count(bytes@),
            font_readable(bytes@),
            base == 8 + pixels_count,
            char_count as int == font_char_count(bytes@),
            k <= char_count,
            chars@.len() == k,
            forall|j: int|
                0 <= j < k ==> #[trigger] chars@[j] == char_at(bytes@, base + 1 + 17 * j),
        decreases char_count - k,
    {
        let q = base + 1 + 17 * (k as usize);
        let c = LoadedChar {
            id: bytes[q],
            min: (read_u32_at(bytes, q + 1), read_u32_at(bytes, q + 5)),
            max: (read_u32_at(bytes, q + 9), read_u32_at(bytes, q + 13)),
        };
        chars.push(c);
        k = k + 1;
    }
    let font = LoadedFont { dimensions: (0, 0), texture_pixels, chars };
    Some(Resource::Font(font, name))
}

/// The kind of sub shader a file extension names: vertex, fragment, compute
/// or function shader.
pub open spec fn shader_type_of(extension: Seq<char>) -> int {
    if extension == "vrsh.glsl"@ {
        0
    } else if extension == "frsh.glsl"@ {
        1
    } else if extension == "cmpt.glsl"@ {
        2
    } else if extension == "func.glsl"@ {
        3
    } else {
        -1
    }
}

/// Converts the source of a shader file into a sub shader resource, its kind
/// taken from the file extension.
pub fn convert_shader(source: Vec<u8>, extension: &str) -> (r: Resource)
    requires
        shader_type_of(extension@) >= 0,
        valid_utf8(source@),
    ensures
        r matches Resource::Shader(sh, name) && sh.subshader_type == shader_type_of(extension@)
            && sh.source@ == decode_utf8(source@) && name@ == Seq::<char>::empty(),
{
    let subshader_type: u8 = if str_eq(extension, "vrsh.glsl") {
        0
    } else if str_eq(extension, "frsh.glsl") {
        1
    } else if str_eq(extension, "cmpt.glsl") {
        2
    } else {
        3
    };
    match string_from_utf8(source) {
        Some(s) => Resource::Shader(
            LoadedSubShader { source: s, subshader_type },
            String::new(),
        ),
        None => {
            proof {
                assert(false);
            }
            Resource::Empty
        },
    }
}

proof fn lemma_u32_bytes_injective(a: u32, b: u32)
    requires
        u32_bytes(a) == u32_bytes(b),
    ensures
        a == b,
{
    let s = u32_bytes(a);
    assert(s.subrange(0, 4) =~= s);
    lemma_u32_roundtrip(a, s, 0);
    lemma_u32_roundtrip(b, s, 0);
}

proof fn lemma_vec3s_injective(a: Seq<(u32, u32, u32)>, b: Seq<(u32, u32, u32)>)
    requires
        a.len() == b.len(),
        vec3s_bytes(a) == vec3s_bytes(b),
    ensures
        a == b,
    decreases a.len(),
{
    if a.len() > 0 {
        let n = a.len() - 1;
        lemma_vec3s_len(a.drop_last());
        lemma_vec3s_len(b.drop_last());
        let x = vec3s_bytes(a);
        assert(vec3s_bytes(a.drop_last()) =~= x.subrange(0, 12 * n));
        assert(vec3s_bytes(b.drop_last()) =~= x.subrange(0, 12 * n));
        lemma_vec3s_injective(a.drop_last(), b.drop_last());
        let (p, q) = (a.last(), b.last());
        assert(vec3_bytes(p) =~= x.subrange(12 * n, 12 * n + 12));
        assert(vec3_bytes(q) =~= x.subrange(12 * n, 12 * n + 12));
        assert(u32_bytes(p.0) =~= vec3_bytes(p).subrange(0, 4));
        assert(u32_bytes(q.0) =~= vec3_bytes(q).subrange(0, 4));
        assert(u32_bytes(p.1) =~= vec3_bytes(p).subrange(4, 8));
        assert(u32_bytes(q.1) =~= vec3_bytes(q).subrange(4, 8));
        assert(u32_bytes(p.2) =~= vec3_bytes(p).subrange(8, 12));
        assert(u32_bytes(q.2) =~= vec3_bytes(q).subrange(8, 12));
        lemma_u32_bytes_injective(p.0, q.0);
        lemma_u32_bytes_injective(p.1, q.1);
        lemma_u32_bytes_injective(p.2, q.2);
        assert(a =~= a.drop_last().push(p));
        assert(b =~= b.drop_last().push(q));
    }
}

proof fn lemma_vec4s_injective(a: Seq<(u32, u32, u32, u32)>, b: Seq<(u32, u32, u32, u32)>)
    requires
        a.len() == b.len(),
        vec4s_bytes(a) == vec4s_bytes(b),
    ensures
        a == b,
    decreases a.len(),
{
    if a.len() > 0 {
        let n = a.len() - 1;
        lemma_vec4s_len(a.drop_last());
        lemma_vec4s_len(b.drop_last());
        let x = vec4s_bytes(a);
        assert(vec4s_bytes(a.drop_last()) =~= x.subrange(0, 16 * n));
        assert(vec4s_bytes(b.drop_last()) =~= x.subrange(0, 16 * n));
        lemma_vec4s_injective(a.drop_last(), b.drop_last());
        let (p, q) = (a.last(), b.last());
        assert(vec4_bytes(p) =~= x.subrange(16 * n, 16 * n + 16));
        assert(vec4_bytes(q) =~= x.subrange(16 * n, 16 * n + 16));
        assert(u32_bytes(p.0) =~= vec4_bytes(p).subrange(0, 4));
        assert(u32_bytes(q.0) =~= vec4_bytes(q).subrange(0, 4));
        assert(u32_bytes(p.1) =~= vec4_bytes(p).subrange(4, 8));
        assert(u32_bytes(q.1) =~= vec4_bytes(q).subrange(4, 8));
        assert(u32_bytes(p.2) =~= vec4_bytes(p).subrange(8, 12));
        assert(u32_bytes(q.2) =~= vec4_bytes(q).subrange(8, 12));
        assert(u32_bytes(p.3) =~= vec4_bytes(p).subrange(12, 16));
        assert(u32_bytes(q.3) =~= vec4_bytes(q).subrange(12, 16));
        lemma_u32_bytes_injective(p.0, q.0);
        lemma_u32_bytes_injective(p.1, q.1);
        lemma_u32_bytes_injective(p.2, q.2);
        lemma_u32_bytes_injective(p.3, q.3);
        assert(a =~= a.drop_last().push(p));
        assert(b =~= b.drop_last().push(q));
    }
}

proof fn lemma_vec2s_injective(a: Seq<(u32, u32)>, b: Seq<(u32, u32)>)
    requires
        a.len() == b.len(),
        vec2s_bytes(a) == vec2s_bytes(b),
    ensures
        a == b,
    decreases a.len(),
{
    if a.len() > 0 {
        let n = a.len() - 1;
        lemma_vec2s_len(a.drop_last());
        lemma_vec2s_len(b.drop_last());
        let x = vec2s_bytes(a);
        assert(vec2s_bytes(a.drop_last()) =~= x.subrange(0, 8 * n));
        assert(vec2s_bytes(b.drop_last()) =~= x.subrange(0, 8 * n));
        lemma_vec2s_injective(a.drop_last(), b.drop_last());
        let (p, q) = (a.last(), b.last());
        assert(vec2_bytes(p) =~= x.subrange(8 * n, 8 * n + 8));
        assert(vec2_bytes(q) =~= x.subrange(8 * n, 8 * n + 8));
        assert(u32_bytes(p.0) =~= vec2_bytes(p).subrange(0, 4));
        assert(u32_bytes(q.0) =~= vec2_bytes(q).subrange(0, 4));
        assert(u32_bytes(p.1) =~= vec2_bytes(p).subrange(4, 8));
        assert(u32_bytes(q.1) =~= vec2_bytes(q).subrange(4, 8));
        lemma_u32_bytes_injective(p.0, q.0);
        lemma_u32_bytes_injective(p.1, q.1);
        assert(a =~= a.drop_last().push(p));
        assert(b =~= b.drop_last().push(q));
    }
}

proof fn lemma_u32s_injective(a: Seq<u32>, b: Seq<u32>)
    requires
        a.len() == b.len(),
        u32s_bytes(a) == u32s_bytes(b),
    ensures
        a == b,
    decreases a.len(),
{
    if a.len() > 0 {
        let n = a.len() - 1;
        lemma_u32s_len(a.drop_last());
        lemma_u32s_len(b.drop_last());
        let x = u32s_bytes(a);
        assert(u32s_bytes(a.drop_last()) =~= x.subrange(0, 4 * n));
        assert(u32s_bytes(b.drop_last()) =~= x.subrange(0, 4 * n));
        lemma_u32s_injective(a.drop_last(), b.drop_last());
        assert(u32_bytes(a.last()) =~= x.subrange(4 * n, 4 * n + 4));
        assert(u32_bytes(b.last()) =~= x.subrange(4 * n, 4 * n + 4));
        lemma_u32_bytes_injective(a.last(), b.last());
        assert(a =~= a.drop_last().push(a.last()));
        assert(b =~= b.drop_last().push(b.last()));
    }
}

/// Law: a packed texture reads back as the same texture: its width, its
/// height and its compressed bytes.
pub proof fn law_texture_roundtrip(t: LoadedTexture)
    ensures
        ({
            let b = texture_bytes(t);
            &&& b.len() >= 4
            &&& le_u16_at(b, 0) == t.width
            &&& le_u16_at(b, 2) == t.height
            &&& b.subrange(4, b.len() as int) == t.compressed_bytes@
        }),
{
    let b = texture_bytes(t);
    assert(b.subrange(0, 2) =~= u16_bytes(t.width));
    assert(b.subrange(2, 4) =~= u16_bytes(t.height));
    lemma_u16_roundtrip(t.width, b, 0);
    lemma_u16_roundtrip(t.height, b, 2);
    assert(b.subrange(4, b.len() as int) =~= t.compressed_bytes@);
}

/// Law: a packed vertex, fragment or compute sub shader reads back as the
/// same sub shader: its kind and its source.
pub proof fn law_shader_roundtrip(s: LoadedSubShader)
    requires
        s.subshader_type <= 2,
    ensures
        ({
            let b = shader_bytes(s);
            &&& shader_readable(b)
            &&& b.len() > 0
            &&& b[0] == s.subshader_type
            &&& decode_utf8(b.subrange(1, b.len() as int)) == s.source@
        }),
{
    let b = shader_bytes(s);
    assert(b.subrange(1, b.len() as int) =~= encode_utf8(s.source@));
    vstd::utf8::encode_utf8_valid_utf8(s.source@);
    vstd::utf8::encode_utf8_decode_utf8(s.source@);
}

/// Law: a packed well-formed model is read back without failing, and as the
/// same model: its positions, normals, tangents, texture coordinates and
/// indices.
#[verifier::spinoff_prover]
#[verifier::rlimit(40)]
pub proof fn law_model_roundtrip(m: LoadedModel, m2: LoadedModel)
    requires
        model_well_formed(m),
    ensures
        model_readable(model_bytes(m)),
        model_vertices_present(model_bytes(m)),
        model_decoded(m2, model_bytes(m)) ==> {
            &&& m2.vertices@ == m.vertices@
            &&& m2.normals@ == m.normals@
            &&& m2.tangents@ == m.tangents@
            &&& m2.uvs@ == m.uvs@
            &&& m2.indices@ == m.indices@
        },
{
    let b = model_bytes(m);
    let n: int = m.vertices@.len() as int;
    let t: int = m.indices@.len() as int;
    lemma_vec3s_len(m.vertices@);
    lemma_vec3s_len(m.normals@);
    lemma_vec4s_len(m.tangents@);
    lemma_vec2s_len(m.uvs@);
    lemma_u32s_len(m.indices@);
    assert(b.subrange(0, 4) =~= u32_bytes(n as u32));
    assert(b.subrange(4, 8) =~= u32_bytes(t as u32));
    lemma_u32_roundtrip(n as u32, b, 0);
    lemma_u32_roundtrip(t as u32, b, 4);
    assert(b.len() == 8 + 48 * n + 4 * t);
    if model_decoded(m2, b) {
        lemma_vec3s_len(m2.vertices@);
        lemma_vec3s_len(m2.normals@);
        lemma_vec4s_len(m2.tangents@);
        lemma_vec2s_len(m2.uvs@);
        lemma_u32s_len(m2.indices@);
        let c = model_bytes(m2);
        assert(c =~= b);
        assert(vec3s_bytes(m.vertices@) =~= b.subrange(8, 8 + 12 * n));
        assert(vec3s_bytes(m2.vertices@) =~= c.subrange(8, 8 + 12 * n));
        assert(vec3s_bytes(m.normals@) =~= b.subrange(8 + 12 * n, 8 + 24 * n));
        assert(vec3s_bytes(m2.normals@) =~= c.subrange(8 + 12 * n, 8 + 24 * n));
        assert(vec4s_bytes(m.tangents@) =~= b.subrange(8 + 24 * n, 8 + 40 * n));
        assert(vec4s_bytes(m2.tangents@) =~= c.subrange(8 + 24 * n, 8 + 40 * n));
        assert(vec2s_bytes(m.uvs@) =~= b.subrange(8 + 40 * n, 8 + 48 * n));
        assert(vec2s_bytes(m2.uvs@) =~= c.subrange(8 + 40 * n, 8 + 48 * n));
        assert(u32s_bytes(m.indices@) =~= b.subrange(8 + 48 * n, 8 + 48 * n + 4 * t));
        assert(u32s_bytes(m2.indices@) =~= c.subrange(8 + 48 * n, 8 + 48 * n + 4 * t));
        lemma_vec3s_injective(m2.vertices@, m.vertices@);
        lemma_vec3s_injective(m2.normals@, m.normals@);
        lemma_vec4s_injective(m2.tangents@, m.tangents@);
        lemma_vec2s_injective(m2.uvs@, m.uvs@);
        lemma_u32s_injective(m2.indices@, m.indices@);
    }
}

} // verus!
