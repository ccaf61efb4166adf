use vstd::prelude::*;

verus! {

/// A flattened vertex buffer: `count` elements of `stride` bytes each.
#[derive(Debug, Clone, Default)]
pub struct IFlatBuffer {
    pub stride: u32,
    pub count: u32,
    pub buffer: Vec<u8>,
}

} // verus!
