//! Volumetric rendering: the signed distance field texture it samples, the
//! (possibly downscaled) screen textures it writes, and the sizes of the
//! compute dispatches that fill them. The shaders themselves run elsewhere.
use vstd::prelude::*;
use crate::texture::{is_default_texture, Texture, TextureType, TextureFormat, DataType, TextureFilter, TextureWrapping, type_width};

verus! {

/// The descriptor of a texture of the given size, format, filter and
/// wrapping, otherwise as `Texture::default` makes it: unnamed, with id 0,
/// no flags and unsigned bytes.
pub open spec fn texture_like(t: Texture, ttype: TextureType, format: TextureFormat, filter: TextureFilter, wrap: TextureWrapping) -> bool {
    &&& t.id == 0
    &&& t.name@ == Seq::<char>::empty()
    &&& t.flags.spec_bits() == 0
    &&& t.ttype == ttype
    &&& t._format == format
    &&& t._type == DataType::UByte
    &&& t.filter == filter
    &&& t.wrap_mode == wrap
}

/// The size of the screen textures for a screen of `resolution` pixels,
/// scaled down by `scale` along each axis.
pub open spec fn screen_size(resolution: (u16, u16), scale: u16) -> TextureType {
    TextureType::Texture2D((resolution.0 / scale) as u16, (resolution.1 / scale) as u16)
}

/// Volumetric rendering state.
pub struct Volumetric {
    /// The signed distance field that is sampled.
    pub sdf_tex: Texture,
    /// The screen texture the result is written to.
    pub result_tex: Texture,
    /// The depth of the result.
    pub depth_tex: Texture,
    /// Whether volumetric rendering runs.
    pub enabled: bool,
    /// The size of each side of the distance field.
    pub sdf_dimension: u16,
    /// The factor by which the screen textures are scaled down.
    pub scale_down_factor_result: u16,
}

impl Volumetric {
    /// Disabled, with default textures and no sizes yet.
    pub fn default() -> (r: Volumetric)
        ensures
            !r.enabled,
            r.sdf_dimension == 0,
            r.scale_down_factor_result == 0,
            is_default_texture(r.sdf_tex),
            is_default_texture(r.result_tex),
            is_default_texture(r.depth_tex),
    {
        Volumetric {
            sdf_tex: Texture::default(),
            result_tex: Texture::default(),
            depth_tex: Texture::default(),
            enabled: false,
            sdf_dimension: 0,
            scale_down_factor_result: 0,
        }
    }

    /// Describes the textures: a cube of `sdf_dimensions` for the distance
    /// field, and two screen textures for a screen of `resolution` scaled
    /// down by `scale_down_factor_result`.
    pub fn create_textures(&mut self, resolution: (u16, u16), sdf_dimensions: u16, scale_down_factor_result: u16)
        requires
            scale_down_factor_result >= 1,
        ensures
            final(self).sdf_dimension == sdf_dimensions,
            final(self).scale_down_factor_result == scale_down_factor_result,
            final(self).enabled == old(self).enabled,
            texture_like(
                final(self).sdf_tex,
                TextureType::Texture3D(sdf_dimensions, sdf_dimensions, sdf_dimensions),
                TextureFormat::R16F,
                TextureFilter::Linear,
                TextureWrapping::Repeat,
            ),
            texture_like(
                final(self).result_tex,
                screen_size(resolution, scale_down_factor_result),
                TextureFormat::RGBA8,
                TextureFilter::Linear,
                TextureWrapping::ClampToBorder,
            ),
            texture_like(
                final(self).depth_tex,
                screen_size(resolution, scale_down_factor_result),
                TextureFormat::R32f,
                TextureFilter::Nearest,
                TextureWrapping::ClampToBorder,
            ),
    {
        self.sdf_dimension = sdf_dimensions;
        self.scale_down_factor_result = scale_down_factor_result;
        self.sdf_tex = Texture::default().set_dimensions(
            TextureType::Texture3D(sdf_dimensions, sdf_dimensions, sdf_dimensions),
        ).set_wrapping_mode(TextureWrapping::Repeat).set_format(TextureFormat::R16F);
        let size = TextureType::Texture2D(
            resolution.0 / scale_down_factor_result,
            resolution.1 / scale_down_factor_result,
        );
        self.result_tex = Texture::default().set_dimensions(size).set_format(TextureFormat::RGBA8).set_filter(
            TextureFilter::Linear,
        ).set_wrapping_mode(TextureWrapping::ClampToBorder);
        self.depth_tex = Texture::default().set_dimensions(size).set_format(TextureFormat::R32f).set_filter(
            TextureFilter::Nearest,
        ).set_wrapping_mode(TextureWrapping::ClampToBorder);
    }

    /// Resizes the screen textures for a new screen resolution.
    pub fn update_texture_resolution(&mut self, resolution: (u16, u16))
        requires
            old(self).scale_down_factor_result >= 1,
        ensures
            final(self).result_tex == (Texture {
                ttype: screen_size(resolution, old(self).scale_down_factor_result),
                ..old(self).result_tex
            }),
            final(self).depth_tex == (Texture {
                ttype: screen_size(resolution, old(self).scale_down_factor_result),
                ..old(self).depth_tex
            }),
            final(self).sdf_tex == old(self).sdf_tex,
            final(self).enabled == old(self).enabled,
            final(self).sdf_dimension == old(self).sdf_dimension,
            final(self).scale_down_factor_result == old(self).scale_down_factor_result,
    {
        let scale = self.scale_down_factor_result;
        let size = TextureType::Texture2D(resolution.0 / scale, resolution.1 / scale);
        self.result_tex.ttype = size;
        self.depth_tex.ttype = size;
    }

    /// The work groups that generate the distance field: a quarter of each
    /// of its sides.
    pub fn sdf_dispatch(&self) -> (r: (u32, u32, u32))
        requires
            self.sdf_tex.ttype is Texture3D,
        ensures
            r == ((type_width(self.sdf_tex.ttype) / 4) as u32, (self.sdf_tex.ttype->Texture3D_1 / 4) as u32, (
            self.sdf_tex.ttype->Texture3D_2 / 4) as u32),
    {
        (
            self.sdf_tex.get_width() as u32 / 4,
            self.sdf_tex.get_height() as u32 / 4,
            self.sdf_tex.get_depth() as u32 / 4,
        )
    }

    /// The work groups that compute the result, a sixteenth of each side of
    /// the result texture; none where volumetric rendering is disabled.
    pub fn volumetric_dispatch(&self) -> (r: Option<(u32, u32, u32)>)
        requires
            self.enabled ==> self.result_tex.ttype is Texture2D,
        ensures
            r == (if self.enabled {
                Some(((type_width(self.result_tex.ttype) / 16) as u32, (self.result_tex.ttype->Texture2D_1 / 16) as u32, 1u32))
            } else {
                None
            }),
    {
        if !self.enabled {
            return None;
        }
        Some((self.result_tex.get_width() as u32 / 16, self.result_tex.get_height() as u32 / 16, 1))
    }

    /// Volumetric rendering runs.
    pub fn enable(&mut self)
        ensures
            final(self).enabled,
            final(self).sdf_tex == old(self).sdf_tex,
            final(self).result_tex == old(self).result_tex,
            final(self).depth_tex == old(self).depth_tex,
            final(self).sdf_dimension == old(self).sdf_dimension,
            final(self).scale_down_factor_result == old(self).scale_down_factor_result,
    {
        self.enabled = true;
    }

    /// Volumetric rendering stops.
    pub fn disable(&mut self)
        ensures
            !final(self).enabled,
            final(self).sdf_tex == old(self).sdf_tex,
            final(self).result_tex == old(self).result_tex,
            final(self).depth_tex == old(self).depth_tex,
            final(self).sdf_dimension == old(self).sdf_dimension,
            final(self).scale_down_factor_result == old(self).scale_down_factor_result,
    {
        self.enabled = false;
    }
}

} // verus!
