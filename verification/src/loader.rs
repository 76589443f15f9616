//! Loading packed resources: where the packed file of a resource lives,
//! which reader a file extension calls for, and the cache of resources
//! already loaded, by hashed name.
use vstd::prelude::*;
use std::collections::HashMap;
use vstd::string::{StrSliceExecFns, StringExecFns};
use crate::bytes::{str_eq, read_u32_at};
use crate::packing::{
    Resource, shader_readable, model_readable, model_vertices_present, font_readable, font_pixel_count,
    font_char_count, load_shader, load_model, load_texture, load_font, model_decoded, char_at,
    utf8_valid,
};
use crate::bytes::le_u16_at;
use vstd::utf8::{decode_utf8, valid_utf8};
use crate::convert::{split_lines, text_lines, lemma_line_scan_bounds};
use crate::packing::tail_from;
use crate::packer::{hashed_name, calculate_hashed_name, file_extension, decimal, push_decimal};

verus! {

broadcast use vstd::std_specs::hash::group_hash_axioms;

/// Whether a file extension is that of a vertex, fragment or compute shader.
pub open spec fn is_shader_extension(e: Seq<char>) -> bool {
    e == "vrsh.glsl"@ || e == "frsh.glsl"@ || e == "cmpt.glsl"@
}

/// Whether packed bytes can be loaded as a resource of the given extension:
/// the reader for the extension accepts them and finds a resource.
pub open spec fn packed_loadable(extension: Seq<char>, b: Seq<u8>) -> bool {
    if is_shader_extension(extension) {
        b.len() > 0 && shader_readable(b)
    } else if extension == "mdl3d"@ {
        model_readable(b) && model_vertices_present(b)
    } else if extension == "png"@ {
        b.len() >= 4
    } else if extension == "font"@ {
        font_readable(b)
    } else {
        true
    }
}

/// Whether `r` is what the packed bytes `b` of a resource with the given
/// extension and path hold: a sub shader, a model, a texture or a font, and
/// nothing for any other extension.
pub open spec fn decoded_as(extension: Seq<char>, b: Seq<u8>, path: Seq<char>, r: Resource) -> bool {
    if is_shader_extension(extension) {
        r matches Resource::Shader(sh, name) && sh.subshader_type == b[0] && sh.source@ == decode_utf8(
            b.subrange(1, b.len() as int),
        ) && name@ == path
    } else if extension == "mdl3d"@ {
        r matches Resource::Model(m) && model_decoded(m, b)
    } else if extension == "png"@ {
        r matches Resource::Texture(t, name) && t.width == le_u16_at(b, 0) && t.height == le_u16_at(b, 2)
            && t.compressed_bytes@ == b.subrange(4, b.len() as int) && name@ == path
    } else if extension == "font"@ {
        r matches Resource::Font(f, n) && n@ == path && f.dimensions == (0u32, 0u32)
            && f.texture_pixels@ == b.subrange(8, 8 + font_pixel_count(b)) && f.chars@.len()
            == font_char_count(b) && (forall|i: int|
            0 <= i < f.chars@.len() ==> #[trigger] f.chars@[i] == char_at(b, 9 + font_pixel_count(b) + 17 * i))
    } else {
        r == Resource::Empty
    }
}

/// Whether a file extension is that of a vertex, fragment or compute shader.
fn is_shader_ext(extension: &str) -> (r: bool)
    ensures
        r == is_shader_extension(extension@),
{
    str_eq(extension, "vrsh.glsl") || str_eq(extension, "frsh.glsl") || str_eq(extension, "cmpt.glsl")
}

/// Whether packed bytes can be loaded as a resource of the given extension.
pub fn can_load(extension: &str, bytes: &[u8]) -> (r: bool)
    ensures
        r == packed_loadable(extension@, bytes@),
{
    let len = bytes.len() as u64;
    if is_shader_ext(extension) {
        bytes.len() > 0 && bytes[0] <= 2 && utf8_valid(bytes, 1)
    } else if str_eq(extension, "mdl3d") {
        if bytes.len() < 8 {
            return false;
        }
        let vs = read_u32_at(bytes, 0) as u64;
        let ts = read_u32_at(bytes, 4) as u64;
        len - 8 >= 48 * vs && len - 8 - 48 * vs >= 4 * ts
    } else if str_eq(extension, "png") {
        bytes.len() >= 4
    } else if str_eq(extension, "font") {
        if bytes.len() < 8 {
            return false;
        }
        let w = read_u32_at(bytes, 0) as u64;
        let h = read_u32_at(bytes, 4) as u64;
        proof {
            assert(w * h <= 0xffff_ffff_ffff_ffff) by (nonlinear_arith)
                requires w <= 0xffff_ffff, h <= 0xffff_ffff;
        }
        let pixels = w * h;
        if pixels > 0xffff_ffff || len < 9 + pixels {
            return false;
        }
        let chars = bytes[(8 + pixels) as usize] as u64;
        len >= 9 + pixels + 17 * chars
    } else {
        true
    }
}

/// Reads packed bytes as the resource their extension calls for; any other
/// extension gives the empty resource.
pub fn decode_packed(extension: &str, bytes: &[u8], local_path: String) -> (r: Resource)
    requires
        packed_loadable(extension@, bytes@),
    ensures
        decoded_as(extension@, bytes@, local_path@, r),
{
    if is_shader_ext(extension) {
        match load_shader(bytes, local_path) {
            Some(r) => r,
            None => Resource::Empty,
        }
    } else if str_eq(extension, "mdl3d") {
        match load_model(bytes) {
            Some(r) => r,
            None => Resource::Empty,
        }
    } else if str_eq(extension, "png") {
        match load_texture(bytes, local_path) {
            Some(r) => r,
            None => Resource::Empty,
        }
    } else if str_eq(extension, "font") {
        match load_font(bytes, local_path) {
            Some(r) => r,
            None => Resource::Empty,
        }
    } else {
        Resource::Empty
    }
}

/// The resources loaded so far, by hashed name.
pub struct ResourceManager {
    cached_resources: HashMap<u64, Resource>,
}

impl ResourceManager {
    /// The cached resource of each hashed name.
    pub closed spec fn view(&self) -> Map<u64, Resource> {
        self.cached_resources@
    }

    /// A manager with nothing cached.
    pub fn new() -> (r: ResourceManager)
        ensures
            r.view() == Map::<u64, Resource>::empty(),
    {
        ResourceManager { cached_resources: HashMap::new() }
    }

    /// Whether the resource with this hashed name is cached.
    pub fn is_cached(&self, hashed: u64) -> (r: bool)
        ensures
            r == self.view().contains_key(hashed),
    {
        self.cached_resources.contains_key(&hashed)
    }

    /// Loads a resource: from the cache where its hashed name is there,
    /// else from the bytes of its packed file, read as its extension calls
    /// for, and then cached.
    pub fn load_packed_resource(&mut self, local_path: &str, extension: &str, hashed: u64, bytes: &[u8]) -> (r: &Resource)
        requires
            old(self).view().contains_key(hashed) || packed_loadable(extension@, bytes@),
        ensures
            old(self).view().contains_key(hashed) ==> final(self).view() == old(self).view() && *r == old(
                self,
            ).view()[hashed],
            !old(self).view().contains_key(hashed) ==> final(self).view() == old(self).view().insert(
                hashed,
                *r,
            ) && decoded_as(extension@, bytes@, local_path@, *r),
    {
        if !self.cached_resources.contains_key(&hashed) {
            let resource = decode_packed(extension, bytes, String::from_str(local_path));
            self.cached_resources.insert(hashed, resource);
        }
        match self.cached_resources.get(&hashed) {
            Some(r) => r,
            None => vstd::pervasive::unreached(),
        }
    }

    /// Drops a resource from the cache, by its path.
    pub fn unload_resouce(&mut self, local_path: &str)
        ensures
            final(self).view() == old(self).view().remove(hashed_name(local_path@)),
    {
        let hashed = calculate_hashed_name(local_path);
        self.cached_resources.remove(&hashed);
    }
}

/// The position of the last `sep` in `s`, if any.
pub open spec fn last_of(s: Seq<char>, sep: char) -> Option<int>
    decreases s.len(),
{
    if s.len() == 0 {
        None
    } else if s.last() == sep {
        Some(s.len() - 1)
    } else {
        last_of(s.drop_last(), sep)
    }
}

/// The position of the last `sep` in `s`, if any.
fn find_last(s: &str, sep: char) -> (r: Option<usize>)
    ensures
        match r {
            Some(i) => last_of(s@, sep) == Some(i as int) && i < s@.len(),
            None => last_of(s@, sep) is None,
        },
{
    let n = s.unicode_len();
    let mut i: usize = n;
    while i > 0
        invariant
            n == s@.len(),
            i <= n,
            forall|j: int| i <= j < n ==> s@[j] != sep,
        decreases i,
    {
        if s.get_char(i - 1) == sep {
            proof {
                lemma_last_of(s@, sep, i - 1);
            }
            return Some(i - 1);
        }
        i = i - 1;
    }
    proof {
        lemma_last_of(s@, sep, -1);
    }
    None
}

/// Where no `sep` comes after position `i`, the last `sep` is at `i` if
/// there is one there, and there is none if `i` is before the start.
proof fn lemma_last_of(s: Seq<char>, sep: char, i: int)
    requires
        -1 <= i < s.len(),
        forall|j: int| i < j < s.len() ==> s[j] != sep,
    ensures
        0 <= i && s[i] == sep ==> last_of(s, sep) == Some(i),
        i == -1 ==> last_of(s, sep) is None,
    decreases s.len(),
{
    if s.len() > 0 && i < s.len() - 1 {
        lemma_last_of(s.drop_last(), sep, i);
    }
}

/// The folder of the program, from its path: all up to its last backslash,
/// or a lone backslash where there is none.
pub open spec fn spec_client_folder(exe: Seq<char>) -> Seq<char> {
    match last_of(exe, '\\') {
        Some(i) => exe.subrange(0, i + 1),
        None => seq!['\\'],
    }
}

/// The name and extension of a resource: all after the last backslash of
/// its path.
pub open spec fn spec_file_part(path: Seq<char>) -> Seq<char> {
    match last_of(path, '\\') {
        Some(i) => path.subrange(i + 1, path.len() as int),
        None => path,
    }
}

/// The packed file path of a resource, for a program at `exe`: the
/// `packed-resources` folder beside the program and the file named by the
/// hashed path.
pub open spec fn spec_global_path(exe: Seq<char>, local: Seq<char>) -> Seq<char> {
    spec_client_folder(exe) + "packed-resources\\"@ + decimal(hashed_name(local)) + ".pkg"@
}

/// Where the packed file of a resource lives, for a program whose path is
/// `exe_path`: the file's path, the resource's extension and its hashed name.
pub fn local_to_global_path(exe_path: &str, local_path: &str) -> (r: (String, String, u64))
    ensures
        r.0@ == spec_global_path(exe_path@, local_path@),
        r.1@ == file_extension(spec_file_part(local_path@)),
        r.2 == hashed_name(local_path@),
{
    let exe_len = exe_path.unicode_len();
    let mut file = match find_last(exe_path, '\\') {
        Some(i) => String::from_str(exe_path.substring_char(0, i + 1)),
        None => {
            proof {
                reveal_strlit("\\");
            }
            String::from_str("\\")
        },
    };
    file.append("packed-resources\\");
    let hashed = calculate_hashed_name(local_path);
    push_decimal(&mut file, hashed);
    file.append(".pkg");
    let n = local_path.unicode_len();
    let part = match find_last(local_path, '\\') {
        Some(i) => local_path.substring_char(i + 1, n),
        None => {
            proof {
                assert(local_path@.subrange(0, n as int) =~= local_path@);
            }
            local_path.substring_char(0, n)
        },
    };
    let m = part.unicode_len();
    let extension = match crate::packer::find_first(part, '.') {
        Some(i) => String::from_str(part.substring_char(i + 1, m)),
        None => String::new(),
    };
    proof {
        assert(file@ =~= spec_global_path(exe_path@, local_path@));
        assert(extension@ =~= file_extension(spec_file_part(local_path@)));
    }
    (file, extension, hashed)
}

/// The lines `ls` of `b`, joined by new lines.
pub open spec fn joined_lines(b: Seq<u8>, ls: Seq<(usize, usize)>) -> Seq<u8>
    decreases ls.len(),
{
    if ls.len() == 0 {
        Seq::empty()
    } else if ls.len() == 1 {
        b.subrange(ls[0].0 as int, ls[0].1 as int)
    } else {
        joined_lines(b, ls.drop_last()) + seq![10u8] + b.subrange(ls.last().0 as int, ls.last().1 as int)
    }
}

/// The bytes of a packed file after its first `padding` bytes.
pub open spec fn after_padding(b: Seq<u8>, padding: u64) -> Seq<u8> {
    if padding >= b.len() {
        Seq::empty()
    } else {
        b.subrange(padding as int, b.len() as int)
    }
}

/// The text of a packed file after its first `byte_padding` bytes, its
/// lines (as a line reader gives them) joined by new lines (useful for
/// function shaders); `None` where that part of the file is not UTF-8.
pub fn load_lines(bytes: &[u8], byte_padding: u64) -> (r: Option<Vec<u8>>)
    ensures
        match r {
            Some(t) => valid_utf8(after_padding(bytes@, byte_padding)) && t@ == joined_lines(
                after_padding(bytes@, byte_padding),
                text_lines(after_padding(bytes@, byte_padding)),
            ),
            None => !valid_utf8(after_padding(bytes@, byte_padding)),
        },
{
    let from: usize = if byte_padding >= bytes.len() as u64 { bytes.len() } else { byte_padding as usize };
    let tail = tail_from(bytes, from);
    proof {
        if byte_padding >= bytes@.len() {
            assert(tail@ =~= after_padding(bytes@, byte_padding));
        }
    }
    if !utf8_valid(tail.as_slice(), 0) {
        proof {
            assert(tail@.subrange(0, tail@.len() as int) =~= tail@);
        }
        return None;
    }
    proof {
        assert(tail@.subrange(0, tail@.len() as int) =~= tail@);
    }
    let lines = split_lines(tail.as_slice());
    let len = tail.len();
    proof {
        assert(tail@.len() == len);
        lemma_line_scan_bounds(tail@, 0, 0);
    }
    let mut out: Vec<u8> = Vec::new();
    let mut k: usize = 0;
    while k < lines.len()
        invariant
            k <= lines@.len(),
            lines@ == text_lines(tail@),
            forall|j: int| 0 <= j < lines@.len() ==> (#[trigger] lines@[j]).0 <= lines@[j].1 <= tail@.len(),
            out@ == joined_lines(tail@, lines@.subrange(0, k as int)),
        decreases lines@.len() - k,
    {
        let (s, t) = lines[k];
        let ghost before = out@;
        proof {
            assert(lines@.subrange(0, k + 1).drop_last() =~= lines@.subrange(0, k as int));
            assert(lines@.subrange(0, k + 1).last() == (s, t));
            if k == 0 {
                assert(lines@.subrange(0, 1)[0] == (s, t));
            }
        }
        if k > 0 {
            out.push(10u8);
        }
        let mut i = s;
        while i < t
            invariant
                s <= i <= t <= tail@.len(),
                out@ == (if k > 0 { before.push(10u8) } else { before }) + tail@.subrange(s as int, i as int),
            decreases t - i,
        {
            out.push(tail[i]);
            proof {
                assert(tail@.subrange(s as int, i + 1) =~= tail@.subrange(s as int, i as int).push(tail@[i as int]));
                assert(out@ =~= (if k > 0 { before.push(10u8) } else { before }) + tail@.subrange(s as int, i + 1));
            }
            i = i + 1;
        }
        proof {
            if k == 0 {
                assert(before =~= Seq::<u8>::empty());
                assert(out@ =~= tail@.subrange(s as int, t as int));
            } else {
                assert(out@ =~= before + seq![10u8] + tail@.subrange(s as int, t as int));
            }
        }
        k = k + 1;
    }
    proof {
        assert(lines@.subrange(0, lines@.len() as int) =~= lines@);
    }
    Some(out)
}

} // verus!
