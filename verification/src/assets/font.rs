use vstd::prelude::*;
use super::asset::{AssetBase, fresh_asset_base};

verus! {

broadcast use vstd::string::group_string_axioms;

/// How the glyphs of a font are produced.
#[derive(Debug, Clone, Copy, PartialEq, Eq, Structural)]
pub enum FontType {
    TrueType,
    SystemFont,
    Bitmap,
}

impl Default for FontType {
    fn default() -> (r: Self)
        ensures
            r == FontType::TrueType,
    {
        FontType::TrueType
    }
}

/// A font asset with its family name.
#[derive(Debug)]
pub struct Font {
    pub base: AssetBase,
    pub font_type: FontType,
    pub family_name: String,
}

impl Font {
    pub fn new() -> (r: Self)
        ensures
            r.base@ == fresh_asset_base(),
            r.font_type == FontType::TrueType,
            r.family_name@.len() == 0,
    {
        Font { base: AssetBase::new(), font_type: FontType::TrueType, family_name: String::new() }
    }

    pub fn get_family_name(&self) -> (r: &str)
        ensures
            r@ == self.family_name@,
    {
        self.family_name.as_str()
    }

    pub fn set_family_name(&mut self, name: &str)
        ensures
            final(self).family_name@ == name@,
            final(self).font_type == old(self).font_type,
            final(self).base@ == old(self).base@,
    {
        self.family_name = name.to_string();
    }

    pub fn get_font_type(&self) -> (r: FontType)
        ensures
            r == self.font_type,
    {
        self.font_type
    }
}

impl Default for Font {
    fn default() -> (r: Self)
        ensures
            r.base@ == fresh_asset_base(),
            r.font_type == FontType::TrueType,
            r.family_name@.len() == 0,
    {
        Self::new()
    }
}

} // verus!
