use vstd::prelude::*;

verus! {

broadcast use vstd::string::group_string_axioms;

/// A texture a joint animation can render into.
pub trait Texture {
}

/// Releases the joint transform cached for a node; joint transforms are not
/// cached, so there is nothing to release.
pub fn delete_transform(_node: &()) {
}

/// How an animation clip repeats.
#[derive(Clone, Copy, Debug, PartialEq, Eq, Structural)]
pub enum WrapMode {
    Default,
    Normal,
    Loop,
    PingPong,
    LoopPingPong,
    Clamp,
    LoopClamp,
}

impl Default for WrapMode {
    /// Clips loop unless told otherwise.
    fn default() -> (r: Self)
        ensures
            r == WrapMode::Loop,
    {
        WrapMode::Loop
    }
}

/// The kinds of blend tree node.
#[derive(Debug, Clone, Copy, PartialEq, Eq, Structural)]
pub enum BlendNodeType {
    Leaf,
    Blend1D,
    Blend2D,
    Additive,
}

/// How a track interpolates between keyframes.
#[derive(Debug, Clone, Copy, PartialEq, Eq, Structural)]
pub enum TrackInterpolation {
    Step,
    Linear,
    Cubic,
}

impl Default for TrackInterpolation {
    fn default() -> (r: Self)
        ensures
            r == TrackInterpolation::Linear,
    {
        TrackInterpolation::Linear
    }
}

/// The value type a track animates.
#[derive(Debug, Clone, Copy, PartialEq, Eq, Structural)]
pub enum TrackType {
    Real,
    Quaternion,
    Vector3,
    Color,
    Boolean,
}

/// Where an animated property lives: a target node, optionally a component
/// type, the property name and optionally an element index.
#[derive(Debug, Clone, Default)]
pub struct PropertyPath {
    pub target_name: String,
    pub component_type: String,
    pub property_name: String,
    pub array_index: Option<usize>,
}

impl PropertyPath {
    pub fn new(target: &str, property: &str) -> (r: Self)
        ensures
            r.target_name@ == target@,
            r.component_type@ == Seq::<char>::empty(),
            r.property_name@ == property@,
            r.array_index is None,
    {
        PropertyPath {
            target_name: target.to_string(),
            component_type: String::new(),
            property_name: property.to_string(),
            array_index: None,
        }
    }
}

} // verus!
