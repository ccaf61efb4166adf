use vstd::prelude::*;
use super::asset::{AssetBase, fresh_asset_base};
use super::asset_enum::{PixelFormat, is_compressed_format, format_bytes_per_pixel};

verus! {

/// Raw image data with its dimensions and texel format.
#[derive(Debug)]
pub struct ImageAsset {
    pub base: AssetBase,
    pub data: Vec<u8>,
    pub width: u32,
    pub height: u32,
    pub format: PixelFormat,
    pub compressed: bool,
    pub url: String,
    pub mipmap_level_data_size: Vec<u32>,
}

/// Number of bytes an uncompressed image of the given size occupies.
pub open spec fn uncompressed_size(width: u32, height: u32, format: PixelFormat) -> int {
    width * height * format_bytes_per_pixel(format)
}

impl ImageAsset {
    pub fn new() -> (r: Self)
        ensures
            r.base@ == fresh_asset_base(),
            r.data@.len() == 0,
            r.width == 0,
            r.height == 0,
            r.format == PixelFormat::Rgba8888,
            !r.compressed,
            r.url@.len() == 0,
            r.mipmap_level_data_size@.len() == 0,
    {
        ImageAsset {
            base: AssetBase::new(),
            data: Vec::new(),
            width: 0,
            height: 0,
            format: PixelFormat::Rgba8888,
            compressed: false,
            url: String::new(),
            mipmap_level_data_size: Vec::new(),
        }
    }

    /// An image over the given bytes; its compression flag follows the format.
    pub fn with_data(width: u32, height: u32, format: PixelFormat, data: Vec<u8>) -> (r: Self)
        ensures
            r.base@ == fresh_asset_base(),
            r.data@ == data@,
            r.width == width,
            r.height == height,
            r.format == format,
            r.compressed == is_compressed_format(format),
            r.url@.len() == 0,
            r.mipmap_level_data_size@.len() == 0,
    {
        let compressed = format.is_compressed();
        ImageAsset {
            base: AssetBase::new(),
            data,
            width,
            height,
            format,
            compressed,
            url: String::new(),
            mipmap_level_data_size: Vec::new(),
        }
    }

    pub fn get_data(&self) -> (r: &[u8])
        ensures
            r@ == self.data@,
    {
        self.data.as_slice()
    }

    pub fn set_data(&mut self, data: Vec<u8>)
        ensures
            final(self).data@ == data@,
            final(self).base@ == old(self).base@,
            final(self).width == old(self).width,
            final(self).height == old(self).height,
            final(self).format == old(self).format,
            final(self).compressed == old(self).compressed,
            final(self).url@ == old(self).url@,
            final(self).mipmap_level_data_size@ == old(self).mipmap_level_data_size@,
    {
        self.data = data;
    }

    pub fn get_width(&self) -> (r: u32)
        ensures
            r == self.width,
    {
        self.width
    }

    pub fn set_width(&mut self, width: u32)
        ensures
            final(self).width == width,
            final(self).base@ == old(self).base@,
            final(self).data@ == old(self).data@,
            final(self).height == old(self).height,
            final(self).format == old(self).format,
            final(self).compressed == old(self).compressed,
            final(self).url@ == old(self).url@,
            final(self).mipmap_level_data_size@ == old(self).mipmap_level_data_size@,
    {
        self.width = width;
    }

    pub fn get_height(&self) -> (r: u32)
        ensures
            r == self.height,
    {
        self.height
    }

    pub fn set_height(&mut self, height: u32)
        ensures
            final(self).height == height,
            final(self).base@ == old(self).base@,
            final(self).data@ == old(self).data@,
            final(self).width == old(self).width,
            final(self).format == old(self).format,
            final(self).compressed == old(self).compressed,
            final(self).url@ == old(self).url@,
            final(self).mipmap_level_data_size@ == old(self).mipmap_level_data_size@,
    {
        self.height = height;
    }

    pub fn get_format(&self) -> (r: PixelFormat)
        ensures
            r == self.format,
    {
        self.format
    }

    /// Changes the texel format and recomputes the compression flag from it.
    pub fn set_format(&mut self, format: PixelFormat)
        ensures
            final(self).format == format,
            final(self).compressed == is_compressed_format(format),
            final(self).base@ == old(self).base@,
            final(self).data@ == old(self).data@,
            final(self).width == old(self).width,
            final(self).height == old(self).height,
            final(self).url@ == old(self).url@,
            final(self).mipmap_level_data_size@ == old(self).mipmap_level_data_size@,
    {
        self.format = format;
        self.compressed = format.is_compressed();
    }

    pub fn is_compressed(&self) -> (r: bool)
        ensures
            r == self.compressed,
    {
        self.compressed
    }

    pub fn get_url(&self) -> (r: &str)
        ensures
            r@ == self.url@,
    {
        self.url.as_str()
    }

    pub fn set_url(&mut self, url: &str)
        ensures
            final(self).url@ == url@,
            final(self).base@ == old(self).base@,
            final(self).data@ == old(self).data@,
            final(self).width == old(self).width,
            final(self).height == old(self).height,
            final(self).format == old(self).format,
            final(self).compressed == old(self).compressed,
            final(self).mipmap_level_data_size@ == old(self).mipmap_level_data_size@,
    {
        self.url = url.to_string();
    }

    pub fn get_mipmap_level_data_size(&self) -> (r: &[u32])
        ensures
            r@ == self.mipmap_level_data_size@,
    {
        self.mipmap_level_data_size.as_slice()
    }

    pub fn set_mipmap_level_data_size(&mut self, sizes: Vec<u32>)
        ensures
            final(self).mipmap_level_data_size@ == sizes@,
            final(self).base@ == old(self).base@,
            final(self).data@ == old(self).data@,
            final(self).width == old(self).width,
            final(self).height == old(self).height,
            final(self).format == old(self).format,
            final(self).compressed == old(self).compressed,
            final(self).url@ == old(self).url@,
    {
        self.mipmap_level_data_size = sizes;
    }

    /// Bytes the image data should hold: the stored length for compressed
    /// data, width * height * bytes per texel otherwise. Both the pixel count
    /// and the byte count must fit in 32 bits.
    pub fn expected_data_size(&self) -> (r: usize)
        requires
            !self.compressed ==> self.width * self.height <= u32::MAX,
            !self.compressed ==> uncompressed_size(self.width, self.height, self.format)
                <= u32::MAX,
        ensures
            r == if self.compressed {
                self.data@.len() as int
            } else {
                uncompressed_size(self.width, self.height, self.format)
            },
    {
        if self.compressed {
            return self.data.len();
        }
        let bpp = self.format.bytes_per_pixel();
        (self.width * self.height * bpp) as usize
    }
}

impl Default for ImageAsset {
    fn default() -> (r: Self)
        ensures
            r.base@ == fresh_asset_base(),
            r.data@.len() == 0,
            r.width == 0,
            r.height == 0,
            r.format == PixelFormat::Rgba8888,
            !r.compressed,
            r.url@.len() == 0,
            r.mipmap_level_data_size@.len() == 0,
    {
        Self::new()
    }
}

} // verus!
