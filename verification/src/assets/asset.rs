use vstd::prelude::*;

verus! {

broadcast use vstd::string::group_string_axioms;

/// Abstract state of an asset header: its identity strings, its flags and
/// the number of outstanding asset references.
pub ghost struct AssetBaseView {
    pub uuid: Seq<char>,
    pub name: Seq<char>,
    pub native: Seq<char>,
    pub native_url: Seq<char>,
    pub loaded: bool,
    pub is_default: bool,
    pub ref_count: nat,
}

/// Common header shared by every asset kind.
#[derive(Debug)]
pub struct AssetBase {
    pub uuid: String,
    pub name: String,
    pub native: String,
    pub native_url: String,
    pub loaded: bool,
    pub is_default: bool,
    asset_ref_count: u32,
}

impl View for AssetBase {
    type V = AssetBaseView;

    closed spec fn view(&self) -> AssetBaseView {
        AssetBaseView {
            uuid: self.uuid@,
            name: self.name@,
            native: self.native@,
            native_url: self.native_url@,
            loaded: self.loaded,
            is_default: self.is_default,
            ref_count: self.asset_ref_count as nat,
        }
    }
}

/// The state of a freshly created asset header: empty strings, loaded,
/// not a default asset, no references.
pub open spec fn fresh_asset_base() -> AssetBaseView {
    AssetBaseView {
        uuid: Seq::empty(),
        name: Seq::empty(),
        native: Seq::empty(),
        native_url: Seq::empty(),
        loaded: true,
        is_default: false,
        ref_count: 0,
    }
}

impl AssetBase {
    pub fn new() -> (r: Self)
        ensures
            r@ == fresh_asset_base(),
    {
        AssetBase {
            uuid: String::new(),
            name: String::new(),
            native: String::new(),
            native_url: String::new(),
            loaded: true,
            is_default: false,
            asset_ref_count: 0,
        }
    }

    pub fn get_uuid(&self) -> (r: &str)
        ensures
            r@ == self@.uuid,
    {
        self.uuid.as_str()
    }

    pub fn set_uuid(&mut self, uuid: &str)
        ensures
            final(self)@ == (AssetBaseView { uuid: uuid@, ..old(self)@ }),
    {
        self.uuid = uuid.to_string();
    }

    pub fn get_name(&self) -> (r: &str)
        ensures
            r@ == self@.name,
    {
        self.name.as_str()
    }

    pub fn set_name(&mut self, name: &str)
        ensures
            final(self)@ == (AssetBaseView { name: name@, ..old(self)@ }),
    {
        self.name = name.to_string();
    }

    pub fn get_native_url(&self) -> (r: &str)
        ensures
            r@ == self@.native_url,
    {
        self.native_url.as_str()
    }

    /// Adds one asset reference; the counter must not be saturated.
    pub fn add_asset_ref(&mut self)
        requires
            old(self)@.ref_count < u32::MAX,
        ensures
            final(self)@ == (AssetBaseView { ref_count: old(self)@.ref_count + 1, ..old(self)@ }),
    {
        self.asset_ref_count = self.asset_ref_count + 1;
    }

    /// Drops one asset reference; a counter already at zero stays at zero.
    pub fn dec_asset_ref(&mut self)
        ensures
            final(self)@ == (AssetBaseView {
                ref_count: if old(self)@.ref_count > 0 {
                    (old(self)@.ref_count - 1) as nat
                } else {
                    0
                },
                ..old(self)@
            }),
    {
        if self.asset_ref_count > 0 {
            self.asset_ref_count = self.asset_ref_count - 1;
        }
    }

    pub fn get_asset_ref_count(&self) -> (r: u32)
        ensures
            r as nat == self@.ref_count,
    {
        self.asset_ref_count
    }

    pub fn is_loaded(&self) -> (r: bool)
        ensures
            r == self@.loaded,
    {
        self.loaded
    }

    /// A bare asset header is always valid.
    pub fn validate(&self) -> (r: bool)
        ensures
            r,
    {
        true
    }

    pub fn is_default(&self) -> (r: bool)
        ensures
            r == self@.is_default,
    {
        self.is_default
    }

    /// Hook run once loading finished; the bare header has nothing to do.
    pub fn on_loaded(&mut self)
        ensures
            final(self)@ == old(self)@,
    {
    }
}

impl Default for AssetBase {
    fn default() -> (r: Self)
        ensures
            r@ == fresh_asset_base(),
    {
        Self::new()
    }
}

} // verus!
