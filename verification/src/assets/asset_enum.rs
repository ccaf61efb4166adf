use vstd::prelude::*;

verus! {

/// Texel layouts an image or texture may be stored in.
#[derive(Debug, Clone, Copy, PartialEq, Eq, Hash, Structural)]
pub enum PixelFormat {
    Rgb565,
    Rgb5A1,
    Rgba4444,
    Rgb888,
    Rgb32F,
    Rgba8888,
    Rgba32F,
    A8,
    I8,
    Ai8,
    RgbPvrtc2Bppv1,
    RgbaPvrtc2Bppv1,
    RgbAPvrtc2Bppv1,
    RgbPvrtc4Bppv1,
    RgbaPvrtc4Bppv1,
    RgbAPvrtc4Bppv1,
    RgbEtc1,
    RgbaEtc1,
    RgbEtc2,
    RgbaEtc2,
    RgbaAstc4X4,
    RgbaAstc5X4,
    RgbaAstc5X5,
    RgbaAstc6X5,
    RgbaAstc6X6,
    RgbaAstc8X5,
    RgbaAstc8X6,
    RgbaAstc8X8,
    RgbaAstc10X5,
    RgbaAstc10X6,
    RgbaAstc10X8,
    RgbaAstc10X10,
    RgbaAstc12X10,
    RgbaAstc12X12,
}

/// Block-compressed formats: every PVRTC, ETC and ASTC variant.
pub open spec fn is_compressed_format(f: PixelFormat) -> bool {
    match f {
        PixelFormat::RgbPvrtc2Bppv1 | PixelFormat::RgbaPvrtc2Bppv1 | PixelFormat::RgbAPvrtc2Bppv1
        | PixelFormat::RgbPvrtc4Bppv1 | PixelFormat::RgbaPvrtc4Bppv1
        | PixelFormat::RgbAPvrtc4Bppv1 | PixelFormat::RgbEtc1 | PixelFormat::RgbaEtc1
        | PixelFormat::RgbEtc2 | PixelFormat::RgbaEtc2 | PixelFormat::RgbaAstc4X4
        | PixelFormat::RgbaAstc5X4 | PixelFormat::RgbaAstc5X5 | PixelFormat::RgbaAstc6X5
        | PixelFormat::RgbaAstc6X6 | PixelFormat::RgbaAstc8X5 | PixelFormat::RgbaAstc8X6
        | PixelFormat::RgbaAstc8X8 | PixelFormat::RgbaAstc10X5 | PixelFormat::RgbaAstc10X6
        | PixelFormat::RgbaAstc10X8 | PixelFormat::RgbaAstc10X10 | PixelFormat::RgbaAstc12X10
        | PixelFormat::RgbaAstc12X12 => true,
        _ => false,
    }
}

/// Formats without an alpha channel.
pub open spec fn lacks_alpha(f: PixelFormat) -> bool {
    match f {
        PixelFormat::Rgb565 | PixelFormat::Rgb888 | PixelFormat::Rgb32F | PixelFormat::I8
        | PixelFormat::RgbPvrtc2Bppv1 | PixelFormat::RgbPvrtc4Bppv1 | PixelFormat::RgbEtc1
        | PixelFormat::RgbEtc2 => true,
        _ => false,
    }
}

/// Size of one texel in bytes for uncompressed formats; 0 where a texel has
/// no whole-byte size.
pub open spec fn format_bytes_per_pixel(f: PixelFormat) -> u32 {
    match f {
        PixelFormat::A8 | PixelFormat::I8 => 1,
        PixelFormat::Ai8 | PixelFormat::Rgb565 | PixelFormat::Rgb5A1 | PixelFormat::Rgba4444 => 2,
        PixelFormat::Rgb888 => 3,
        PixelFormat::Rgba8888 => 4,
        PixelFormat::Rgb32F => 12,
        PixelFormat::Rgba32F => 16,
        _ => 0,
    }
}

impl Default for PixelFormat {
    fn default() -> (r: Self)
        ensures
            r == PixelFormat::Rgba8888,
    {
        PixelFormat::Rgba8888
    }
}

/// Numeric code of a pixel format as the renderer encodes it.
pub open spec fn pixel_format_code(f: PixelFormat) -> u64 {
    match f {
        PixelFormat::Rgb565 => 1,
        PixelFormat::Rgb5A1 => 2,
        PixelFormat::Rgba4444 => 3,
        PixelFormat::Rgb888 => 4,
        PixelFormat::Rgb32F => 5,
        PixelFormat::Rgba8888 => 6,
        PixelFormat::Rgba32F => 7,
        PixelFormat::A8 => 8,
        PixelFormat::I8 => 9,
        PixelFormat::Ai8 => 10,
        PixelFormat::RgbPvrtc2Bppv1 => 11,
        PixelFormat::RgbaPvrtc2Bppv1 => 12,
        PixelFormat::RgbAPvrtc2Bppv1 => 1024,
        PixelFormat::RgbPvrtc4Bppv1 => 13,
        PixelFormat::RgbaPvrtc4Bppv1 => 14,
        PixelFormat::RgbAPvrtc4Bppv1 => 1025,
        PixelFormat::RgbEtc1 => 15,
        PixelFormat::RgbaEtc1 => 1026,
        PixelFormat::RgbEtc2 => 16,
        PixelFormat::RgbaEtc2 => 17,
        PixelFormat::RgbaAstc4X4 => 18,
        PixelFormat::RgbaAstc5X4 => 19,
        PixelFormat::RgbaAstc5X5 => 20,
        PixelFormat::RgbaAstc6X5 => 21,
        PixelFormat::RgbaAstc6X6 => 22,
        PixelFormat::RgbaAstc8X5 => 23,
        PixelFormat::RgbaAstc8X6 => 24,
        PixelFormat::RgbaAstc8X8 => 25,
        PixelFormat::RgbaAstc10X5 => 26,
        PixelFormat::RgbaAstc10X6 => 27,
        PixelFormat::RgbaAstc10X8 => 28,
        PixelFormat::RgbaAstc10X10 => 29,
        PixelFormat::RgbaAstc12X10 => 30,
        PixelFormat::RgbaAstc12X12 => 31,
    }
}

impl PixelFormat {
    /// Numeric code of this pixel format.
    pub fn code(&self) -> (r: u64)
        ensures
            r == pixel_format_code(*self),
    {
        match self {
            PixelFormat::Rgb565 => 1,
            PixelFormat::Rgb5A1 => 2,
            PixelFormat::Rgba4444 => 3,
            PixelFormat::Rgb888 => 4,
            PixelFormat::Rgb32F => 5,
            PixelFormat::Rgba8888 => 6,
            PixelFormat::Rgba32F => 7,
            PixelFormat::A8 => 8,
            PixelFormat::I8 => 9,
            PixelFormat::Ai8 => 10,
            PixelFormat::RgbPvrtc2Bppv1 => 11,
            PixelFormat::RgbaPvrtc2Bppv1 => 12,
            PixelFormat::RgbAPvrtc2Bppv1 => 1024,
            PixelFormat::RgbPvrtc4Bppv1 => 13,
            PixelFormat::RgbaPvrtc4Bppv1 => 14,
            PixelFormat::RgbAPvrtc4Bppv1 => 1025,
            PixelFormat::RgbEtc1 => 15,
            PixelFormat::RgbaEtc1 => 1026,
            PixelFormat::RgbEtc2 => 16,
            PixelFormat::RgbaEtc2 => 17,
            PixelFormat::RgbaAstc4X4 => 18,
            PixelFormat::RgbaAstc5X4 => 19,
            PixelFormat::RgbaAstc5X5 => 20,
            PixelFormat::RgbaAstc6X5 => 21,
            PixelFormat::RgbaAstc6X6 => 22,
            PixelFormat::RgbaAstc8X5 => 23,
            PixelFormat::RgbaAstc8X6 => 24,
            PixelFormat::RgbaAstc8X8 => 25,
            PixelFormat::RgbaAstc10X5 => 26,
            PixelFormat::RgbaAstc10X6 => 27,
            PixelFormat::RgbaAstc10X8 => 28,
            PixelFormat::RgbaAstc10X10 => 29,
            PixelFormat::RgbaAstc12X10 => 30,
            PixelFormat::RgbaAstc12X12 => 31,
        }
    }

    pub fn is_compressed(&self) -> (r: bool)
        ensures
            r == is_compressed_format(*self),
    {
        matches!(
            self,
            PixelFormat::RgbPvrtc2Bppv1 | PixelFormat::RgbaPvrtc2Bppv1
                | PixelFormat::RgbAPvrtc2Bppv1 | PixelFormat::RgbPvrtc4Bppv1
                | PixelFormat::RgbaPvrtc4Bppv1 | PixelFormat::RgbAPvrtc4Bppv1
                | PixelFormat::RgbEtc1 | PixelFormat::RgbaEtc1 | PixelFormat::RgbEtc2
                | PixelFormat::RgbaEtc2 | PixelFormat::RgbaAstc4X4 | PixelFormat::RgbaAstc5X4
                | PixelFormat::RgbaAstc5X5 | PixelFormat::RgbaAstc6X5 | PixelFormat::RgbaAstc6X6
                | PixelFormat::RgbaAstc8X5 | PixelFormat::RgbaAstc8X6 | PixelFormat::RgbaAstc8X8
                | PixelFormat::RgbaAstc10X5 | PixelFormat::RgbaAstc10X6
                | PixelFormat::RgbaAstc10X8 | PixelFormat::RgbaAstc10X10
                | PixelFormat::RgbaAstc12X10 | PixelFormat::RgbaAstc12X12
        )
    }

    pub fn has_alpha(&self) -> (r: bool)
        ensures
            r == !lacks_alpha(*self),
    {
        !matches!(
            self,
            PixelFormat::Rgb565 | PixelFormat::Rgb888 | PixelFormat::Rgb32F | PixelFormat::I8
                | PixelFormat::RgbPvrtc2Bppv1 | PixelFormat::RgbPvrtc4Bppv1
                | PixelFormat::RgbEtc1 | PixelFormat::RgbEtc2
        )
    }

    pub fn bytes_per_pixel(&self) -> (r: u32)
        ensures
            r == format_bytes_per_pixel(*self),
    {
        match self {
            PixelFormat::A8 | PixelFormat::I8 => 1,
            PixelFormat::Ai8 | PixelFormat::Rgb565 | PixelFormat::Rgb5A1
            | PixelFormat::Rgba4444 => 2,
            PixelFormat::Rgb888 => 3,
            PixelFormat::Rgba8888 => 4,
            PixelFormat::Rgb32F => 12,
            PixelFormat::Rgba32F => 16,
            _ => 0,
        }
    }
}

/// How texture coordinates outside [0, 1] are resolved.
#[derive(Debug, Clone, Copy, PartialEq, Eq, Hash, Structural)]
pub enum WrapMode {
    Repeat,
    ClampToEdge,
    MirroredRepeat,
    ClampToBorder,
}

/// Numeric code of a wrap mode as the renderer encodes it.
pub open spec fn wrap_mode_code(w: WrapMode) -> u64 {
    match w {
        WrapMode::Repeat => 0,
        WrapMode::ClampToEdge => 1,
        WrapMode::MirroredRepeat => 2,
        WrapMode::ClampToBorder => 3,
    }
}

impl WrapMode {
    /// Numeric code of this wrap mode.
    pub fn code(&self) -> (r: u64)
        ensures
            r == wrap_mode_code(*self),
    {
        match self {
            WrapMode::Repeat => 0,
            WrapMode::ClampToEdge => 1,
            WrapMode::MirroredRepeat => 2,
            WrapMode::ClampToBorder => 3,
        }
    }
}

impl Default for WrapMode {
    fn default() -> (r: Self)
        ensures
            r == WrapMode::Repeat,
    {
        WrapMode::Repeat
    }
}

/// Texel sampling filter.
#[derive(Debug, Clone, Copy, PartialEq, Eq, Hash, Structural)]
pub enum Filter {
    NoFilter,
    Linear,
    Nearest,
}

/// Numeric code of a filter as the renderer encodes it.
pub open spec fn filter_code(f: Filter) -> u64 {
    match f {
        Filter::NoFilter => 0,
        Filter::Linear => 1,
        Filter::Nearest => 2,
    }
}

impl Filter {
    /// Numeric code of this filter.
    pub fn code(&self) -> (r: u64)
        ensures
            r == filter_code(*self),
    {
        match self {
            Filter::NoFilter => 0,
            Filter::Linear => 1,
            Filter::Nearest => 2,
        }
    }
}

impl Default for Filter {
    fn default() -> (r: Self)
        ensures
            r == Filter::Linear,
    {
        Filter::Linear
    }
}

} // verus!
