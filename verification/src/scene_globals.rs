use vstd::prelude::*;

verus! {

/// How ambient light is computed.
#[derive(Debug, Clone, Copy, PartialEq, Eq, Structural)]
pub enum AmbientLightMode {
    Flat,
    Gradient,
}

impl Default for AmbientLightMode {
    fn default() -> (r: Self)
        ensures
            r == AmbientLightMode::Flat,
    {
        AmbientLightMode::Flat
    }
}

/// How fog thickens with distance.
#[derive(Debug, Clone, Copy, PartialEq, Eq, Structural)]
pub enum FogType {
    NoFog,
    Linear,
    Exp,
    Exp2,
}

impl Default for FogType {
    fn default() -> (r: Self)
        ensures
            r == FogType::NoFog,
    {
        FogType::NoFog
    }
}

/// How shadows are cast.
#[derive(Debug, Clone, Copy, PartialEq, Eq, Structural)]
pub enum ShadowType {
    NoShadow,
    Hard,
    Soft,
}

impl Default for ShadowType {
    fn default() -> (r: Self)
        ensures
            r == ShadowType::NoShadow,
    {
        ShadowType::NoShadow
    }
}

/// Percentage-closer filtering of shadow maps.
#[derive(Debug, Clone, Copy, PartialEq, Eq, Structural)]
pub enum PcfType {
    Hard,
    Soft,
    Soft2x,
    Soft4x,
}

impl Default for PcfType {
    fn default() -> (r: Self)
        ensures
            r == PcfType::Hard,
    {
        PcfType::Hard
    }
}

/// Octree scene culling settings.
#[derive(Debug, Clone)]
pub struct OctreeInfo {
    pub enabled: bool,
    pub min_depth: u32,
    pub max_depth: u32,
    pub capacity: u32,
}

impl Default for OctreeInfo {
    /// Disabled, depths 1 to 8, four objects per cell.
    fn default() -> (r: Self)
        ensures
            !r.enabled,
            r.min_depth == 1,
            r.max_depth == 8,
            r.capacity == 4,
    {
        OctreeInfo { enabled: false, min_depth: 1, max_depth: 8, capacity: 4 }
    }
}

/// Whether light probes are baked or updated at run time.
#[derive(Debug, Clone, Copy, PartialEq, Eq, Structural)]
pub enum LightProbeMode {
    Baked,
    Realtime,
}

impl Default for LightProbeMode {
    fn default() -> (r: Self)
        ensures
            r == LightProbeMode::Baked,
    {
        LightProbeMode::Baked
    }
}

} // verus!
