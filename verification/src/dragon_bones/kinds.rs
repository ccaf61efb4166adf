use vstd::prelude::*;

verus! {

/// How an armature animation plays.
#[derive(Debug, Clone, Copy, PartialEq, Eq, Structural)]
pub enum AnimationPlayMode {
    Normal,
    NoTween,
    Once,
    Loop,
    PingPong,
}

/// The role of a bone in its armature.
#[derive(Debug, Clone, Copy, PartialEq, Eq, Structural)]
pub enum BoneType {
    Root,
    Joint,
    Limb,
}

/// What a slot displays.
#[derive(Debug, Clone)]
pub enum SlotType {
    Image,
    Mesh,
    Mask,
}

/// How a slot is blended over what is behind it.
#[derive(Debug, Clone)]
pub enum BlendMode {
    Normal,
    Additive,
    Multiply,
    Screen,
}

} // verus!
