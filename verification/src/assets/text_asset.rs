use vstd::prelude::*;
use super::asset::{AssetBase, fresh_asset_base};

verus! {

/// An asset holding a piece of text.
#[derive(Debug)]
pub struct TextAsset {
    pub base: AssetBase,
    pub text: String,
}

impl TextAsset {
    pub fn new() -> (r: Self)
        ensures
            r.base@ == fresh_asset_base(),
            r.text@.len() == 0,
    {
        TextAsset { base: AssetBase::default(), text: String::new() }
    }

    /// The text content.
    pub fn to_string(&self) -> (r: &str)
        ensures
            r@ == self.text@,
    {
        self.text.as_str()
    }
}

impl Default for TextAsset {
    fn default() -> (r: Self)
        ensures
            r.base@ == fresh_asset_base(),
            r.text@.len() == 0,
    {
        TextAsset { base: AssetBase::default(), text: String::new() }
    }
}

} // verus!
