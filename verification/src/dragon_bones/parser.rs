use vstd::prelude::*;

use crate::utils::text::{decimal, push_decimal, push_str};

verus! {

broadcast use {vstd::string::group_string_axioms, vstd::slice::group_slice_axioms};

/// Reads DragonBones binary data.
pub struct DragonBonesParser;

/// The version reported for data too short to hold one.
pub open spec fn default_version() -> Seq<char> {
    seq!['5', '.', '5']
}

/// The version written in `data`: its first two bytes as `major.minor`,
/// or `5.5` when the data is shorter than 8 bytes.
pub open spec fn spec_version(data: Seq<u8>) -> Seq<char> {
    if data.len() < 8 {
        default_version()
    } else {
        decimal(data[0] as nat) + seq!['.'] + decimal(data[1] as nat)
    }
}

/// Whether `data` starts with the DragonBones magic `DB` and holds at
/// least three bytes.
pub open spec fn has_magic(data: Seq<u8>) -> bool {
    data.len() >= 3 && data[0] == 0x44u8 && data[1] == 0x42u8
}

impl DragonBonesParser {
    pub fn parse_version(data: &[u8]) -> (r: String)
        ensures
            r@ == spec_version(data@),
    {
        if data.len() < 8 {
            let r = String::from_str("5.5");
            proof {
                reveal_strlit("5.5");
            }
            return r;
        }
        let major = data[0];
        let minor = data[1];
        let mut out = String::new();
        push_decimal(&mut out, major as u64);
        push_str(&mut out, ".");
        proof {
            reveal_strlit(".");
        }
        push_decimal(&mut out, minor as u64);
        assert(out@ =~= spec_version(data@));
        out
    }

    /// Checks the header of DragonBones data: `Err` with a message unless
    /// the data starts with `DB` and holds at least three bytes.
    pub fn check_format(data: &[u8]) -> (r: Result<(), String>)
        ensures
            r is Ok <==> has_magic(data@),
            r matches Err(msg) ==> msg@ == "Invalid DragonBones format"@,
    {
        if data.len() < 3 || data[0] != 0x44u8 || data[1] != 0x42u8 {
            return Err(String::from_str("Invalid DragonBones format"));
        }
        Ok(())
    }
}

} // verus!
