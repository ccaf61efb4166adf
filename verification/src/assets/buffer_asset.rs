use vstd::prelude::*;
use super::asset::{AssetBase, AssetBaseView, fresh_asset_base};

verus! {

/// An asset holding an optional raw byte buffer.
#[derive(Debug)]
pub struct BufferAsset {
    pub base: AssetBase,
    buffer: Option<Vec<u8>>,
}

impl BufferAsset {
    /// The stored bytes, if any.
    pub closed spec fn contents(&self) -> Option<Seq<u8>> {
        match self.buffer {
            Some(v) => Some(v@),
            None => None,
        }
    }

    /// The asset header.
    pub closed spec fn header(&self) -> AssetBaseView {
        self.base@
    }

    pub fn new() -> (r: Self)
        ensures
            r.header() == fresh_asset_base(),
            r.contents() is None,
    {
        BufferAsset { base: AssetBase::default(), buffer: None }
    }

    pub fn get_buffer(&self) -> (r: Option<&Vec<u8>>)
        ensures
            match r {
                Some(v) => self.contents() == Some(v@),
                None => self.contents() is None,
            },
    {
        self.buffer.as_ref()
    }

    pub fn set_buffer(&mut self, data: Vec<u8>)
        ensures
            final(self).contents() == Some(data@),
            final(self).header() == old(self).header(),
    {
        self.buffer = Some(data);
    }

    /// A buffer asset is valid exactly when it holds bytes.
    pub fn validate(&self) -> (r: bool)
        ensures
            r == self.contents() is Some,
    {
        self.buffer.is_some()
    }
}

impl Default for BufferAsset {
    fn default() -> (r: Self)
        ensures
            r.header() == fresh_asset_base(),
            r.contents() is None,
    {
        BufferAsset { base: AssetBase::default(), buffer: None }
    }
}

} // verus!
