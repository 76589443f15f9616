use engine_core::packing::{
    convert_shader, load_font, load_model, load_shader, load_texture, pack_model, pack_shader,
    pack_texture, LoadedModel, LoadedSubShader, LoadedTexture, Resource,
};

fn sample_model() -> LoadedModel {
    LoadedModel {
        vertices: vec![(1, 2, 3), (4, 5, 6)],
        normals: vec![(7, 8, 9), (10, 11, 12)],
        tangents: vec![(13, 14, 15, 16), (17, 18, 19, 20)],
        uvs: vec![(21, 22), (23, 24)],
        indices: vec![0, 1, 1],
    }
}

#[test]
fn model_roundtrip_gives_back_the_model() {
    let bytes = pack_model(sample_model());
    assert_eq!(bytes.len(), 8 + 48 * 2 + 4 * 3);
    assert_eq!(&bytes[0..8], &[2, 0, 0, 0, 3, 0, 0, 0]);
    match load_model(&bytes) {
        Some(Resource::Model(m)) => {
            let s = sample_model();
            assert_eq!(m.vertices, s.vertices);
            assert_eq!(m.normals, s.normals);
            assert_eq!(m.tangents, s.tangents);
            assert_eq!(m.uvs, s.uvs);
            assert_eq!(m.indices, s.indices);
        }
        _ => panic!("not a model"),
    }
}

#[test]
fn model_with_missing_vertex_data_is_not_loaded() {
    // Announces 2 vertices but holds none.
    let bytes = vec![2, 0, 0, 0, 0, 0, 0, 0];
    assert!(load_model(&bytes).is_none());
}

#[test]
fn shader_roundtrip_gives_back_the_source() {
    let sh = LoadedSubShader { source: "void main() {}".to_string(), subshader_type: 1 };
    let bytes = pack_shader(sh);
    assert_eq!(bytes[0], 1);
    assert_eq!(&bytes[1..], b"void main() {}");
    match load_shader(&bytes, "a.frsh.glsl".to_string()) {
        Some(Resource::Shader(s, name)) => {
            assert_eq!(s.source, "void main() {}");
            assert_eq!(s.subshader_type, 1);
            assert_eq!(name, "a.frsh.glsl");
        }
        _ => panic!("not a shader"),
    }
    assert!(load_shader(&[], "x".to_string()).is_none());
}

#[test]
fn texture_roundtrip_gives_back_size_and_bytes() {
    let t = LoadedTexture { width: 300, height: 2, compressed_bytes: vec![9, 8, 7] };
    let bytes = pack_texture(t);
    assert_eq!(bytes, vec![44, 1, 2, 0, 9, 8, 7]);
    match load_texture(&bytes, "t.png".to_string()) {
        Some(Resource::Texture(t, name)) => {
            assert_eq!(t.width, 300);
            assert_eq!(t.height, 2);
            assert_eq!(t.compressed_bytes, vec![9, 8, 7]);
            assert_eq!(name, "t.png");
        }
        _ => panic!("not a texture"),
    }
}

#[test]
fn font_is_read_pixels_then_characters() {
    let mut bytes = vec![2, 0, 0, 0, 1, 0, 0, 0, 11, 12, 1];
    bytes.push(65);
    for v in [1u32, 2, 3, 4] {
        bytes.extend_from_slice(&v.to_le_bytes());
    }
    match load_font(&bytes, "f.font".to_string()) {
        Some(Resource::Font(f, name)) => {
            assert_eq!(name, "f.font");
            assert_eq!(f.dimensions, (0, 0));
            assert_eq!(f.texture_pixels, vec![11, 12]);
            assert_eq!(f.chars.len(), 1);
            assert_eq!(f.chars[0].id, 65);
            assert_eq!(f.chars[0].min, (1, 2));
            assert_eq!(f.chars[0].max, (3, 4));
        }
        _ => panic!("not a font"),
    }
}

#[test]
fn convert_shader_takes_the_kind_from_the_extension() {
    let kinds = [("vrsh.glsl", 0u8), ("frsh.glsl", 1), ("cmpt.glsl", 2), ("func.glsl", 3)];
    for (ext, kind) in kinds {
        match convert_shader(b"src".to_vec(), ext) {
            Resource::Shader(s, name) => {
                assert_eq!(s.subshader_type, kind);
                assert_eq!(s.source, "src");
                assert_eq!(name, "");
            }
            _ => panic!("not a shader"),
        }
    }
}

#[test]
fn resource_default_is_empty() {
    assert!(matches!(Resource::default(), Resource::Empty));
}
