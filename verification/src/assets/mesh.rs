use vstd::prelude::*;

verus! {

broadcast use vstd::string::group_string_axioms;

/// Scalar type of a vertex attribute component.
#[derive(Debug, Clone, Copy, PartialEq, Eq, Structural)]
pub enum AttributeType {
    Byte,
    UByte,
    Short,
    UShort,
    Int,
    UInt,
    Float,
    Float16,
}

impl Default for AttributeType {
    fn default() -> (r: Self)
        ensures
            r == AttributeType::Float,
    {
        AttributeType::Float
    }
}

/// Size in bytes of one component of the given type.
pub open spec fn component_size(t: AttributeType) -> u32 {
    match t {
        AttributeType::Byte | AttributeType::UByte => 1,
        AttributeType::Short | AttributeType::UShort | AttributeType::Float16 => 2,
        AttributeType::Int | AttributeType::UInt | AttributeType::Float => 4,
    }
}

/// One attribute of an interleaved vertex layout.
#[derive(Debug, Clone)]
pub struct VertexAttribute {
    pub name: String,
    pub attribute_type: AttributeType,
    pub component_count: u32,
    pub normalized: bool,
    pub offset: u32,
}

/// Bytes one attribute occupies in a vertex.
pub open spec fn attribute_stride(a: VertexAttribute) -> int {
    a.component_count * component_size(a.attribute_type)
}

impl VertexAttribute {
    /// A non-normalized attribute at offset 0.
    pub fn new(name: &str, attribute_type: AttributeType, component_count: u32) -> (r: Self)
        ensures
            r.name@ == name@,
            r.attribute_type == attribute_type,
            r.component_count == component_count,
            !r.normalized,
            r.offset == 0,
    {
        VertexAttribute {
            name: name.to_string(),
            attribute_type,
            component_count,
            normalized: false,
            offset: 0,
        }
    }

    pub fn bytes_per_component(&self) -> (r: u32)
        ensures
            r == component_size(self.attribute_type),
    {
        match self.attribute_type {
            AttributeType::Byte | AttributeType::UByte => 1,
            AttributeType::Short | AttributeType::UShort | AttributeType::Float16 => 2,
            AttributeType::Int | AttributeType::UInt | AttributeType::Float => 4,
        }
    }

    /// Bytes the attribute occupies in one vertex; must fit in 32 bits.
    pub fn stride(&self) -> (r: u32)
        requires
            attribute_stride(*self) <= u32::MAX,
        ensures
            r == attribute_stride(*self),
    {
        self.component_count * self.bytes_per_component()
    }
}

/// Index range and vertex bundles of one sub-mesh.
#[derive(Debug, Clone)]
pub struct SubMeshInfo {
    pub vertex_bundles_indices: Vec<u32>,
    pub primitives: u32,
    pub index_start: u32,
    pub index_count: u32,
    pub index_end: u32,
}

impl Default for SubMeshInfo {
    /// No bundles, triangle-list primitives (code 4), empty index range.
    fn default() -> (r: Self)
        ensures
            r.vertex_bundles_indices@.len() == 0,
            r.primitives == 4,
            r.index_start == 0,
            r.index_count == 0,
            r.index_end == 0,
    {
        SubMeshInfo {
            vertex_bundles_indices: Vec::new(),
            primitives: 4,
            index_start: 0,
            index_count: 0,
            index_end: 0,
        }
    }
}

} // verus!
