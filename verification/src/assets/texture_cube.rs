use vstd::prelude::*;
use super::asset_enum::{Filter, PixelFormat, WrapMode};

verus! {

/// How the mip chain of a cube map is produced.
#[derive(Debug, Clone, Copy, PartialEq, Eq, Structural)]
pub enum MipmapMode {
    NoMipmap,
    Auto,
    BakedConvolutionMap,
}

/// The six faces of a cube map, in storage order.
#[derive(Debug, Clone, Copy, PartialEq, Eq, Structural)]
pub enum FaceIndex {
    Right,
    Left,
    Top,
    Bottom,
    Front,
    Back,
}

/// The image of each face for one mip level.
#[derive(Debug, Default)]
pub struct ITextureCubeMipmap {
    pub front: Option<String>,
    pub back: Option<String>,
    pub left: Option<String>,
    pub right: Option<String>,
    pub top: Option<String>,
    pub bottom: Option<String>,
}

/// A cube map texture.
#[derive(Debug)]
pub struct TextureCube {
    pub width: u32,
    pub height: u32,
    pub format: PixelFormat,
    pub mipmap_mode: MipmapMode,
    pub is_rgbe: bool,
    pub min_filter: Filter,
    pub mag_filter: Filter,
    pub wrap_s: WrapMode,
    pub wrap_t: WrapMode,
    pub mipmaps: Vec<ITextureCubeMipmap>,
}

impl TextureCube {
    pub fn new() -> (r: Self)
        ensures
            r.width == 1,
            r.height == 1,
            r.format == PixelFormat::Rgba8888,
            r.mipmap_mode == MipmapMode::NoMipmap,
            !r.is_rgbe,
            r.min_filter == Filter::Linear,
            r.mag_filter == Filter::Linear,
            r.wrap_s == WrapMode::Repeat,
            r.wrap_t == WrapMode::Repeat,
            r.mipmaps@.len() == 0,
    {
        TextureCube {
            width: 1,
            height: 1,
            format: PixelFormat::Rgba8888,
            mipmap_mode: MipmapMode::NoMipmap,
            is_rgbe: false,
            min_filter: Filter::Linear,
            mag_filter: Filter::Linear,
            wrap_s: WrapMode::Repeat,
            wrap_t: WrapMode::Repeat,
            mipmaps: Vec::new(),
        }
    }

    pub fn set_mipmaps(&mut self, mipmaps: Vec<ITextureCubeMipmap>)
        ensures
            final(self).mipmaps@ == mipmaps@,
            final(self).width == old(self).width,
            final(self).height == old(self).height,
            final(self).format == old(self).format,
            final(self).mipmap_mode == old(self).mipmap_mode,
            final(self).is_rgbe == old(self).is_rgbe,
            final(self).min_filter == old(self).min_filter,
            final(self).mag_filter == old(self).mag_filter,
            final(self).wrap_s == old(self).wrap_s,
            final(self).wrap_t == old(self).wrap_t,
    {
        self.mipmaps = mipmaps;
    }

    /// The images of the first mip level, if there is one.
    pub fn get_image(&self) -> (r: Option<&ITextureCubeMipmap>)
        ensures
            match r {
                Some(m) => self.mipmaps@.len() > 0 && *m == self.mipmaps@[0],
                None => self.mipmaps@.len() == 0,
            },
    {
        if self.mipmaps.len() > 0 {
            Some(&self.mipmaps[0])
        } else {
            None
        }
    }

    /// Drops every mip level and turns mipmapping off.
    pub fn reset(&mut self)
        ensures
            final(self).mipmaps@.len() == 0,
            final(self).mipmap_mode == MipmapMode::NoMipmap,
            final(self).width == old(self).width,
            final(self).height == old(self).height,
            final(self).format == old(self).format,
            final(self).is_rgbe == old(self).is_rgbe,
            final(self).min_filter == old(self).min_filter,
            final(self).mag_filter == old(self).mag_filter,
            final(self).wrap_s == old(self).wrap_s,
            final(self).wrap_t == old(self).wrap_t,
    {
        self.mipmaps.clear();
        self.mipmap_mode = MipmapMode::NoMipmap;
    }
}

impl Default for TextureCube {
    fn default() -> (r: Self)
        ensures
            r.width == 1,
            r.height == 1,
            r.format == PixelFormat::Rgba8888,
            r.mipmap_mode == MipmapMode::NoMipmap,
            !r.is_rgbe,
            r.mipmaps@.len() == 0,
    {
        TextureCube::new()
    }
}

} // verus!
