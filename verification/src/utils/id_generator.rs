use vstd::prelude::*;

use super::random::random_u64;
use super::text::{decimal, push_decimal, push_str};

verus! {

broadcast use vstd::string::group_string_axioms;

/// Separates an id's category from its number.
pub const NON_UUID_MARK: &'static str = ".";

/// Hands out ids `<category>.<n>` with consecutive numbers `n`, starting
/// just above a random value below 999.
pub struct IDGenerator {
    id: u32,
    prefix: String,
}

impl IDGenerator {
    /// The number of the last id handed out (the random start before any).
    pub closed spec fn counter(&self) -> u32 {
        self.id
    }

    /// `<category>.`
    pub closed spec fn prefix(&self) -> Seq<char> {
        self.prefix@
    }

    pub fn new(category: &str) -> (r: Self)
        ensures
            r.prefix() == category@ + seq!['.'],
            r.counter() < 999,
    {
        let start = random_u64() % 999;
        let mut prefix = category.to_string();
        push_str(&mut prefix, NON_UUID_MARK);
        proof {
            reveal_strlit(".");
        }
        IDGenerator { id: start as u32, prefix }
    }

    /// The number of the last id handed out (the random start before any).
    pub fn last_number(&self) -> (r: u32)
        ensures
            r == self.counter(),
    {
        self.id
    }

    /// The next id: the prefix followed by the next number in decimal.
    pub fn get_new_id(&mut self) -> (r: String)
        requires
            old(self).counter() < u32::MAX,
        ensures
            final(self).counter() == old(self).counter() + 1,
            final(self).prefix() == old(self).prefix(),
            r@ == old(self).prefix() + decimal(final(self).counter() as nat),
    {
        self.id = self.id + 1;
        let mut out = self.prefix.clone();
        push_decimal(&mut out, self.id as u64);
        out
    }
}

} // verus!
