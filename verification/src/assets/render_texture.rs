use vstd::prelude::*;
use super::asset_enum::{Filter, PixelFormat, WrapMode};

verus! {

/// Parameters a render texture is (re)created with.
#[derive(Debug, Clone, Default)]
pub struct IRenderTextureCreateInfo {
    pub name: Option<String>,
    pub width: u32,
    pub height: u32,
}

/// A texture that can be rendered into.
#[derive(Debug, Clone)]
pub struct RenderTexture {
    pub width: u32,
    pub height: u32,
    pub format: PixelFormat,
    pub min_filter: Filter,
    pub mag_filter: Filter,
    pub wrap_s: WrapMode,
    pub wrap_t: WrapMode,
    pub anisotropy: u32,
}

impl RenderTexture {
    pub fn new() -> (r: Self)
        ensures
            r.width == 1,
            r.height == 1,
            r.format == PixelFormat::Rgba8888,
            r.min_filter == Filter::Linear,
            r.mag_filter == Filter::Linear,
            r.wrap_s == WrapMode::Repeat,
            r.wrap_t == WrapMode::Repeat,
            r.anisotropy == 0,
    {
        RenderTexture {
            width: 1,
            height: 1,
            format: PixelFormat::Rgba8888,
            min_filter: Filter::Linear,
            mag_filter: Filter::Linear,
            wrap_s: WrapMode::Repeat,
            wrap_t: WrapMode::Repeat,
            anisotropy: 0,
        }
    }

    /// Takes the size from the create info; a named texture is RGBA8888.
    pub fn initialize(&mut self, info: &IRenderTextureCreateInfo)
        ensures
            *final(self) == (RenderTexture {
                width: info.width,
                height: info.height,
                format: if info.name is Some {
                    PixelFormat::Rgba8888
                } else {
                    old(self).format
                },
                ..*old(self)
            }),
    {
        self.width = info.width;
        self.height = info.height;
        if info.name.is_some() {
            self.format = PixelFormat::Rgba8888;
        }
    }

    /// Same as `initialize`.
    pub fn reset(&mut self, info: &IRenderTextureCreateInfo)
        ensures
            *final(self) == (RenderTexture {
                width: info.width,
                height: info.height,
                format: if info.name is Some {
                    PixelFormat::Rgba8888
                } else {
                    old(self).format
                },
                ..*old(self)
            }),
    {
        self.initialize(info);
    }

    pub fn resize(&mut self, width: u32, height: u32)
        ensures
            *final(self) == (RenderTexture { width, height, ..*old(self) }),
    {
        self.width = width;
        self.height = height;
    }

    /// Pixel read-back is not available: the result is always empty.
    pub fn read_pixels(&self, _x: u32, _y: u32, _w: u32, _h: u32) -> (r: Vec<u8>)
        ensures
            r@.len() == 0,
    {
        Vec::new()
    }
}

impl Default for RenderTexture {
    fn default() -> (r: Self)
        ensures
            r.width == 1,
            r.height == 1,
            r.format == PixelFormat::Rgba8888,
            r.min_filter == Filter::Linear,
            r.mag_filter == Filter::Linear,
            r.wrap_s == WrapMode::Repeat,
            r.wrap_t == WrapMode::Repeat,
            r.anisotropy == 0,
    {
        RenderTexture::new()
    }
}

} // verus!
