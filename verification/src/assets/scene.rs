use vstd::prelude::*;
use super::asset::{AssetBase, fresh_asset_base};

verus! {

broadcast use vstd::string::group_string_axioms;

/// A scene asset referring to the scene it instantiates.
#[derive(Debug)]
pub struct SceneAsset {
    pub base: AssetBase,
    pub scene_uuid: Option<String>,
}

impl SceneAsset {
    pub fn new() -> (r: Self)
        ensures
            r.base@ == fresh_asset_base(),
            r.scene_uuid is None,
    {
        SceneAsset { base: AssetBase::new(), scene_uuid: None }
    }

    pub fn get_scene_uuid(&self) -> (r: Option<&str>)
        ensures
            match r {
                Some(s) => self.scene_uuid matches Some(u) && s@ == u@,
                None => self.scene_uuid is None,
            },
    {
        match &self.scene_uuid {
            Some(u) => Some(u.as_str()),
            None => None,
        }
    }

    pub fn set_scene_uuid(&mut self, uuid: &str)
        ensures
            final(self).scene_uuid matches Some(u) && u@ == uuid@,
            final(self).base@ == old(self).base@,
    {
        self.scene_uuid = Some(uuid.to_string());
    }
}

impl Default for SceneAsset {
    fn default() -> (r: Self)
        ensures
            r.base@ == fresh_asset_base(),
            r.scene_uuid is None,
    {
        Self::new()
    }
}

} // verus!
