use vstd::prelude::*;
use super::asset::{AssetBase, AssetBaseView, fresh_asset_base};
use super::asset_enum::{
    Filter, PixelFormat, WrapMode, filter_code, wrap_mode_code, is_compressed_format,
};

verus! {

/// Abstract state of a texture: its size, format, sampler settings and the
/// sampler hash last recorded.
pub ghost struct TextureBaseView {
    pub base: AssetBaseView,
    pub width: u32,
    pub height: u32,
    pub format: PixelFormat,
    pub min_filter: Filter,
    pub mag_filter: Filter,
    pub mip_filter: Filter,
    pub wrap_s: WrapMode,
    pub wrap_t: WrapMode,
    pub wrap_r: WrapMode,
    pub anisotropy: u32,
    pub hash: u64,
}

/// Sampler hash: the base-31 polynomial over the three wrap modes, the
/// three filters and the anisotropy, in that order.
pub open spec fn sampler_hash(
    wrap_s: WrapMode,
    wrap_t: WrapMode,
    wrap_r: WrapMode,
    min_filter: Filter,
    mag_filter: Filter,
    mip_filter: Filter,
    anisotropy: u32,
) -> int {
    ((((((wrap_mode_code(wrap_s) * 31 + wrap_mode_code(wrap_t)) * 31 + wrap_mode_code(wrap_r))
        * 31 + filter_code(min_filter)) * 31 + filter_code(mag_filter)) * 31 + filter_code(
        mip_filter,
    )) * 31 + anisotropy)
}

/// Sampler hash of a texture state.
pub open spec fn texture_sampler_hash(t: TextureBaseView) -> int {
    sampler_hash(
        t.wrap_s,
        t.wrap_t,
        t.wrap_r,
        t.min_filter,
        t.mag_filter,
        t.mip_filter,
        t.anisotropy,
    )
}

#[derive(Debug)]
pub struct TextureBase {
    pub base: AssetBase,
    pub width: u32,
    pub height: u32,
    pub format: PixelFormat,
    pub min_filter: Filter,
    pub mag_filter: Filter,
    pub mip_filter: Filter,
    pub wrap_s: WrapMode,
    pub wrap_t: WrapMode,
    pub wrap_r: WrapMode,
    pub anisotropy: u32,
    texture_hash: u64,
}

impl View for TextureBase {
    type V = TextureBaseView;

    closed spec fn view(&self) -> TextureBaseView {
        TextureBaseView {
            base: self.base@,
            width: self.width,
            height: self.height,
            format: self.format,
            min_filter: self.min_filter,
            mag_filter: self.mag_filter,
            mip_filter: self.mip_filter,
            wrap_s: self.wrap_s,
            wrap_t: self.wrap_t,
            wrap_r: self.wrap_r,
            anisotropy: self.anisotropy,
            hash: self.texture_hash,
        }
    }
}

/// The state of a new 1x1 RGBA8888 texture with linear filtering, no mip
/// filter, repeat wrapping and no recorded hash.
pub open spec fn fresh_texture() -> TextureBaseView {
    TextureBaseView {
        base: fresh_asset_base(),
        width: 1,
        height: 1,
        format: PixelFormat::Rgba8888,
        min_filter: Filter::Linear,
        mag_filter: Filter::Linear,
        mip_filter: Filter::NoFilter,
        wrap_s: WrapMode::Repeat,
        wrap_t: WrapMode::Repeat,
        wrap_r: WrapMode::Repeat,
        anisotropy: 0,
        hash: 0,
    }
}

/// The hash never exceeds 64 bits: with codes below 4 and a 32-bit
/// anisotropy the polynomial stays below 2^64.
proof fn lemma_sampler_hash_fits(t: TextureBaseView)
    ensures
        0 <= texture_sampler_hash(t) <= u64::MAX,
{
}

impl TextureBase {
    pub fn new() -> (r: Self)
        ensures
            r@ == fresh_texture(),
    {
        TextureBase {
            base: AssetBase::new(),
            width: 1,
            height: 1,
            format: PixelFormat::Rgba8888,
            min_filter: Filter::Linear,
            mag_filter: Filter::Linear,
            mip_filter: Filter::NoFilter,
            wrap_s: WrapMode::Repeat,
            wrap_t: WrapMode::Repeat,
            wrap_r: WrapMode::Repeat,
            anisotropy: 0,
            texture_hash: 0,
        }
    }

    pub fn get_width(&self) -> (r: u32)
        ensures
            r == self@.width,
    {
        self.width
    }

    pub fn set_width(&mut self, width: u32)
        ensures
            final(self)@ == (TextureBaseView {
                width,
                hash: texture_sampler_hash(old(self)@) as u64,
                ..old(self)@
            }),
    {
        self.width = width;
        self.update_hash();
    }

    pub fn get_height(&self) -> (r: u32)
        ensures
            r == self@.height,
    {
        self.height
    }

    pub fn set_height(&mut self, height: u32)
        ensures
            final(self)@ == (TextureBaseView {
                height,
                hash: texture_sampler_hash(old(self)@) as u64,
                ..old(self)@
            }),
    {
        self.height = height;
        self.update_hash();
    }

    pub fn get_pixel_format(&self) -> (r: PixelFormat)
        ensures
            r == self@.format,
    {
        self.format
    }

    pub fn is_compressed(&self) -> (r: bool)
        ensures
            r == is_compressed_format(self@.format),
    {
        self.format.is_compressed()
    }

    pub fn get_anisotropy(&self) -> (r: u32)
        ensures
            r == self@.anisotropy,
    {
        self.anisotropy
    }

    pub fn set_anisotropy(&mut self, anisotropy: u32)
        ensures
            ({
                let s = TextureBaseView { anisotropy, ..old(self)@ };
                final(self)@ == (TextureBaseView { hash: texture_sampler_hash(s) as u64, ..s })
            }),
    {
        self.anisotropy = anisotropy;
        self.update_hash();
    }

    pub fn set_wrap_mode(&mut self, wrap_s: WrapMode, wrap_t: WrapMode, wrap_r: WrapMode)
        ensures
            ({
                let s = TextureBaseView { wrap_s, wrap_t, wrap_r, ..old(self)@ };
                final(self)@ == (TextureBaseView { hash: texture_sampler_hash(s) as u64, ..s })
            }),
    {
        self.wrap_s = wrap_s;
        self.wrap_t = wrap_t;
        self.wrap_r = wrap_r;
        self.update_hash();
    }

    pub fn set_filters(&mut self, min_filter: Filter, mag_filter: Filter)
        ensures
            ({
                let s = TextureBaseView { min_filter, mag_filter, ..old(self)@ };
                final(self)@ == (TextureBaseView { hash: texture_sampler_hash(s) as u64, ..s })
            }),
    {
        self.min_filter = min_filter;
        self.mag_filter = mag_filter;
        self.update_hash();
    }

    pub fn set_mip_filter(&mut self, mip_filter: Filter)
        ensures
            ({
                let s = TextureBaseView { mip_filter, ..old(self)@ };
                final(self)@ == (TextureBaseView { hash: texture_sampler_hash(s) as u64, ..s })
            }),
    {
        self.mip_filter = mip_filter;
        self.update_hash();
    }

    pub fn get_hash(&self) -> (r: u64)
        ensures
            r == self@.hash,
    {
        self.texture_hash
    }

    /// Records the sampler hash of the current settings.
    pub fn update_hash(&mut self)
        ensures
            final(self)@ == (TextureBaseView {
                hash: texture_sampler_hash(old(self)@) as u64,
                ..old(self)@
            }),
    {
        self.texture_hash = self.compute_hash();
    }

    /// The sampler hash of the current settings.
    pub fn compute_hash(&self) -> (r: u64)
        ensures
            r == texture_sampler_hash(self@),
    {
        let ws = self.wrap_s.code();
        let wt = self.wrap_t.code();
        let wr = self.wrap_r.code();
        let fmin = self.min_filter.code();
        let fmag = self.mag_filter.code();
        let fmip = self.mip_filter.code();
        let a = self.anisotropy as u64;
        proof {
            lemma_sampler_hash_fits(self@);
        }
        let mut h: u64 = 0;
        h = h.wrapping_mul(31).wrapping_add(ws);
        h = h.wrapping_mul(31).wrapping_add(wt);
        h = h.wrapping_mul(31).wrapping_add(wr);
        h = h.wrapping_mul(31).wrapping_add(fmin);
        h = h.wrapping_mul(31).wrapping_add(fmag);
        h = h.wrapping_mul(31).wrapping_add(fmip);
        h = h.wrapping_mul(31).wrapping_add(a);
        h
    }
}

impl Default for TextureBase {
    fn default() -> (r: Self)
        ensures
            r@ == fresh_texture(),
    {
        Self::new()
    }
}

/// A two-dimensional texture with a mipmap level count.
#[derive(Debug)]
pub struct Texture2D {
    pub base: TextureBase,
    pub mip_level: u32,
}

impl Texture2D {
    pub fn new() -> (r: Self)
        ensures
            r.base@ == fresh_texture(),
            r.mip_level == 1,
    {
        Texture2D { base: TextureBase::new(), mip_level: 1 }
    }

    pub fn get_mip_level(&self) -> (r: u32)
        ensures
            r == self.mip_level,
    {
        self.mip_level
    }

    pub fn set_mip_level(&mut self, level: u32)
        ensures
            final(self).mip_level == level,
            final(self).base@ == old(self).base@,
    {
        self.mip_level = level;
    }
}

impl Default for Texture2D {
    fn default() -> (r: Self)
        ensures
            r.base@ == fresh_texture(),
            r.mip_level == 1,
    {
        Self::new()
    }
}

} // verus!
