use vstd::prelude::*;
use std::collections::HashMap;

verus! {

broadcast use vstd::string::group_string_axioms;

/// A boolean shader macro override.
#[derive(Debug, Clone)]
pub struct MacroPatch {
    pub name: String,
    pub value: bool,
}

impl MacroPatch {
    pub fn new(name: &str, value: bool) -> (r: Self)
        ensures
            r.name@ == name@,
            r.value == value,
    {
        MacroPatch { name: name.to_string(), value }
    }
}

/// One render pass of a material with its shader defines.
#[derive(Debug, Clone)]
pub struct PassInfo {
    pub program_name: String,
    pub priority: i32,
    pub primitive: u32,
    pub stage: String,
    pub defines: HashMap<String, String>,
}

impl PassInfo {
    /// A pass of the given program with default priority, primitive and stage
    /// and no defines.
    pub fn new(program_name: &str) -> (r: Self)
        ensures
            r.program_name@ == program_name@,
            r.priority == 0,
            r.primitive == 0,
            r.stage@.len() == 0,
            r.defines@.len() == 0,
    {
        PassInfo {
            program_name: program_name.to_string(),
            priority: 0,
            primitive: 0,
            stage: String::new(),
            defines: HashMap::new(),
        }
    }
}

impl Default for PassInfo {
    fn default() -> (r: Self)
        ensures
            r.program_name@.len() == 0,
            r.priority == 0,
            r.primitive == 0,
            r.stage@.len() == 0,
            r.defines@.len() == 0,
    {
        proof {
            reveal_strlit("");
        }
        Self::new("")
    }
}

/// Which effect and technique a material is created from.
#[derive(Debug)]
pub struct MaterialInfo {
    pub effect_name: Option<String>,
    pub technique: u32,
}

impl MaterialInfo {
    pub fn new(effect_name: &str) -> (r: Self)
        ensures
            r.effect_name matches Some(n) && n@ == effect_name@,
            r.technique == 0,
    {
        MaterialInfo { effect_name: Some(effect_name.to_string()), technique: 0 }
    }
}

} // verus!
