use engine_core::texture::{
    DataType, Texture, TextureFilter, TextureFlags, TextureFormat, TextureLoadOptions, TextureType,
    TextureWrapping,
};

#[test]
fn texture_default_is_unnamed_rgba8() {
    let t = Texture::default();
    assert_eq!(t.id, 0);
    assert_eq!(t.name, "");
    assert_eq!(t._format, TextureFormat::RGBA8);
    assert_eq!(t._type, DataType::UByte);
    assert_eq!(t.filter, TextureFilter::Linear);
    assert_eq!(t.wrap_mode, TextureWrapping::Repeat);
    assert_eq!(t.flags.bits(), 0);
}

#[test]
fn texture_builders_set_their_field() {
    let t = Texture::default()
        .set_name("grass")
        .set_format(TextureFormat::R16F)
        .set_dimensions(TextureType::Texture3D(4, 5, 6))
        .set_filter(TextureFilter::Nearest)
        .set_wrapping_mode(TextureWrapping::ClampToBorder);
    assert_eq!(t.name, "grass");
    assert_eq!(t._format, TextureFormat::R16F);
    assert_eq!(t.filter, TextureFilter::Nearest);
    assert_eq!(t.wrap_mode, TextureWrapping::ClampToBorder);
    assert_eq!(t.get_width(), 4);
    assert_eq!(t.get_height(), 5);
    assert_eq!(t.get_depth(), 6);
}

#[test]
fn texture_mipmap_flags() {
    let t = Texture::default().enable_mipmaps();
    assert!(t.flags.contains(TextureFlags::mipmaps()));
    let t = t.disable_mipmaps();
    assert!(!t.flags.contains(TextureFlags::mipmaps()));
    let both = TextureFlags::mutable().union(TextureFlags::mipmaps());
    assert_eq!(both.bits(), 3);
    assert_eq!(both.difference(TextureFlags::mutable()).bits(), 2);
    assert_eq!(TextureFlags::from_bits_truncate(0xff).bits(), 3);
    assert!(TextureFlags::empty().union(TextureFlags::empty()).contains(TextureFlags::empty()));
}

#[test]
fn texture_guess_mipmap_levels_halves_until_one() {
    assert_eq!(Texture::guess_mipmap_levels(0), 0);
    assert_eq!(Texture::guess_mipmap_levels(1), 0);
    assert_eq!(Texture::guess_mipmap_levels(2), 1);
    assert_eq!(Texture::guess_mipmap_levels(3), 2);
    assert_eq!(Texture::guess_mipmap_levels(4), 2);
    assert_eq!(Texture::guess_mipmap_levels(5), 3);
    assert_eq!(Texture::guess_mipmap_levels(1024), 10);
    assert_eq!(Texture::guess_mipmap_levels(1025), 11);
}

#[test]
fn texture_two_dimensional_sizes() {
    let t = Texture::default().set_type(TextureType::Texture2D(640, 480));
    assert_eq!(t.get_width(), 640);
    assert_eq!(t.get_height(), 480);
    let one = Texture::default().set_dimensions(TextureType::Texture1D(7));
    assert_eq!(one.get_width(), 7);
}

#[test]
fn texture_load_options_default() {
    let o = TextureLoadOptions::default();
    assert_eq!(o.filter, TextureFilter::Linear);
    assert_eq!(o.wrapping, TextureWrapping::Repeat);
}
