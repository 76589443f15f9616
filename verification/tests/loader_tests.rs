use engine_core::loader::load_lines;
use engine_core::loader::{can_load, decode_packed, local_to_global_path, ResourceManager};
use engine_core::packing::{pack_texture, LoadedTexture, Resource};
use std::collections::hash_map::DefaultHasher;
use std::hash::{Hash, Hasher};

fn std_hash(s: &str) -> u64 {
    let mut h = DefaultHasher::new();
    s.hash(&mut h);
    h.finish()
}

#[test]
fn global_path_sits_beside_the_program() {
    let (path, ext, hashed) =
        local_to_global_path("C:\\game\\bin\\game.exe", "textures\\grass.png");
    let expected = std_hash("textures\\grass.png");
    assert_eq!(hashed, expected);
    assert_eq!(path, format!("C:\\game\\bin\\packed-resources\\{}.pkg", expected));
    assert_eq!(ext, "png");
}

#[test]
fn global_path_without_folders() {
    let (path, ext, hashed) = local_to_global_path("game", "shader.vrsh.glsl");
    assert_eq!(path, format!("\\packed-resources\\{}.pkg", hashed));
    assert_eq!(ext, "vrsh.glsl");
}

#[test]
fn resources_are_cached_by_hashed_name() {
    let bytes = pack_texture(LoadedTexture { width: 1, height: 2, compressed_bytes: vec![3] });
    let mut manager = ResourceManager::new();
    let hashed = std_hash("t.png");
    assert!(!manager.is_cached(hashed));
    match manager.load_packed_resource("t.png", "png", hashed, &bytes) {
        Resource::Texture(t, name) => {
            assert_eq!((t.width, t.height), (1, 2));
            assert_eq!(name, "t.png");
        }
        _ => panic!("not a texture"),
    }
    assert!(manager.is_cached(hashed));
    // Cached: the bytes handed in are not read again.
    match manager.load_packed_resource("t.png", "png", hashed, &[]) {
        Resource::Texture(t, _) => assert_eq!(t.compressed_bytes, vec![3]),
        _ => panic!("not a texture"),
    }
    manager.unload_resouce("t.png");
    assert!(!manager.is_cached(hashed));
}

#[test]
fn unknown_extensions_load_nothing() {
    assert!(can_load("txt", &[]));
    assert!(matches!(decode_packed("txt", &[1, 2], "a.txt".to_string()), Resource::Empty));
}

#[test]
fn loadability_depends_on_the_extension() {
    assert!(!can_load("png", &[1, 2, 3]));
    assert!(can_load("png", &[1, 2, 3, 4]));
    assert!(!can_load("mdl3d", &[1, 0, 0, 0, 0, 0, 0, 0]));
    assert!(can_load("mdl3d", &[0, 0, 0, 0, 0, 0, 0, 0]));
    assert!(can_load("vrsh.glsl", &[0, b'a']));
    assert!(!can_load("vrsh.glsl", &[3, b'a']));
    assert!(!can_load("vrsh.glsl", &[0, 0xff]));
    assert!(!can_load("cmpt.glsl", &[]));
    assert!(can_load("font", &[0, 0, 0, 0, 0, 0, 0, 0, 0]));
    assert!(!can_load("font", &[0, 0, 0, 0, 0, 0, 0, 0, 1]));
}

#[test]
fn packed_lines_are_joined_after_the_padding() {
    assert_eq!(load_lines(b"XXa\r\nb\n\nc\n", 2), Some(b"a\nb\n\nc".to_vec()));
    assert_eq!(load_lines(b"abc", 10), Some(Vec::new()));
    assert_eq!(load_lines(b"abc", 3), Some(Vec::new()));
    assert_eq!(load_lines(&[0, 0xff, b'a'], 1), None);
    assert_eq!(load_lines(&[0xff, b'a'], 1), Some(b"a".to_vec()));
}
