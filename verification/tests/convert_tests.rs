use engine_core::convert::{convert_texture, parse_mdl3d, split_lines, texture_from_image, Mdl3dKind};
use engine_core::memory::terrain_sizing;

fn png_of(image: image::DynamicImage) -> Vec<u8> {
    let mut bytes: Vec<u8> = Vec::new();
    image.write_to(&mut std::io::Cursor::new(&mut bytes), image::ImageOutputFormat::Png).unwrap();
    bytes
}

#[test]
fn rgba_textures_are_kept_as_they_are() {
    let rgba = image::RgbaImage::from_pixel(3, 2, image::Rgba([1, 2, 3, 4]));
    let bytes = png_of(image::DynamicImage::ImageRgba8(rgba));
    let (texture, rewritten) = convert_texture(bytes.clone()).unwrap();
    assert!(!rewritten);
    assert_eq!((texture.width, texture.height), (3, 2));
    assert_eq!(texture.compressed_bytes, bytes);
}

#[test]
fn other_textures_are_saved_again_as_rgba() {
    let rgb = image::RgbImage::from_pixel(2, 5, image::Rgb([10, 20, 30]));
    let bytes = png_of(image::DynamicImage::ImageRgb8(rgb));
    let (texture, rewritten) = convert_texture(bytes.clone()).unwrap();
    assert!(rewritten);
    assert_eq!((texture.width, texture.height), (2, 5));
    assert_ne!(texture.compressed_bytes, bytes);
    let again = image::load_from_memory(&texture.compressed_bytes).unwrap();
    assert!(matches!(again, image::DynamicImage::ImageRgba8(_)));
    assert_eq!(again.to_rgba8().get_pixel(1, 4), &image::Rgba([10, 20, 30, 255]));
}

#[test]
fn undecodable_textures_are_refused() {
    assert!(convert_texture(vec![1, 2, 3]).is_none());
}

#[test]
fn texture_sizes_are_cut_to_sixteen_bits() {
    let (texture, rewritten) = texture_from_image(vec![7], 70000, 3, None);
    assert_eq!((texture.width, texture.height), (4464, 3));
    assert!(!rewritten);
    assert_eq!(texture.compressed_bytes, vec![7]);
    let (texture, rewritten) = texture_from_image(vec![7], 1, 1, Some(vec![8, 9]));
    assert!(rewritten);
    assert_eq!(texture.compressed_bytes, vec![8, 9]);
}

#[test]
fn lines_drop_their_line_ends() {
    let text = b"ab\r\ncd\n\ne\r";
    assert_eq!(split_lines(text), vec![(0, 2), (4, 6), (7, 7), (8, 10)]);
    assert_eq!(split_lines(b"x\n"), vec![(0, 1)]);
    assert!(split_lines(b"").is_empty());
}

#[test]
fn mdl3d_text_gives_records_and_indices() {
    let text = b"v 1.0/2.0/3.0\r\nn 0/1/0\nu 0.5/0.25\nt 1/0/0/1\ni 0/1/+2\nc skipped\ni 3\n";
    let model = parse_mdl3d(text).unwrap();
    assert_eq!(model.indices, vec![0, 1, 2, 3]);
    let kinds: Vec<Mdl3dKind> = model.records.iter().map(|r| r.kind).collect();
    assert_eq!(kinds, vec![Mdl3dKind::Vertex, Mdl3dKind::Normal, Mdl3dKind::Uv, Mdl3dKind::Tangent]);
    assert_eq!(model.records[0].fields, vec![(2, 5), (6, 9), (10, 13)]);
    assert_eq!(&text[model.records[2].fields[1].0..model.records[2].fields[1].1], b"0.25");
}

#[test]
fn mdl3d_lines_that_cannot_be_read_are_refused() {
    // No space after the tag.
    assert!(parse_mdl3d(b"v\n").is_none());
    // An empty line has no space either.
    assert!(parse_mdl3d(b"i 1\n\ni 2\n").is_none());
    // Too few coordinates.
    assert!(parse_mdl3d(b"u 1.0\n").is_none());
    assert!(parse_mdl3d(b"t 1/2/3\n").is_none());
    // Indices that are no u32.
    assert!(parse_mdl3d(b"i 1/x\n").is_none());
    assert!(parse_mdl3d(b"i 4294967296\n").is_none());
    assert!(parse_mdl3d(b"i -1\n").is_none());
    assert!(parse_mdl3d(b"i +\n").is_none());
    assert!(parse_mdl3d(b"i 1//2\n").is_none());
    // Not UTF-8.
    assert!(parse_mdl3d(&[b'c', b' ', 0xff]).is_none());
    assert_eq!(parse_mdl3d(b"i 4294967295").unwrap().indices, vec![u32::MAX]);
    assert!(parse_mdl3d(b"").unwrap().records.is_empty());
}

#[test]
fn terrain_sizing_rounds_chunks_up_to_the_allocations() {
    // A 128 MiB binding, two chunks of render distance, three allocations.
    let sizing = terrain_sizing(134_217_728, 2, 3, 32);
    assert_eq!(sizing.output_vertex_buffer_length, 8_388_608);
    assert_eq!(sizing.output_triangle_buffer_length, 11_184_810);
    // 5 * 5 * 5 = 125 chunks, rounded up to 126.
    assert_eq!(sizing.chunks, 126);
    assert_eq!(sizing.chunks_per_allocation, 42);
    assert_eq!(sizing.vertices_per_sub_allocation, 8192);
    // 11184810 / 1024 = 10922, whose next power of two is 16384.
    assert_eq!(sizing.triangles_per_sub_allocation, 16384);
    assert_eq!(sizing.dispatch, 8);
}
