use std::sync::{Arc, Mutex};
use vstd::prelude::*;

use crate::utils::random::random_u64;
use crate::utils::text::{decimal, push_decimal, push_str};

verus! {

broadcast use vstd::string::group_string_axioms;

/// Lifecycle and editor flags of an object, one bit each.
#[derive(Debug, Clone, Copy, PartialEq, Eq, Structural)]
pub enum ObjectFlags {
    Zero,
    Destroyed,
    RealDestroyed,
    ToDestroy,
    DontSave,
    EditOnly,
    Dirty,
    Destroying,
    DontDestroy,
    Deactivating,
    IsPreloadStarted,
    IsOnLoadCalled,
    IsOnLoadStarted,
    IsStartCalled,
    IsRotationLocked,
    IsScaleLocked,
    IsAnchorLocked,
    IsSizeLocked,
    IsPositionLocked,
    IsReplicated,
    IsClientLoad,
    IsSkipTransformUpdate,
}

/// Every bit but the runtime-state flags (to destroy, dirty, destroying,
/// don't destroy, deactivating, the load and start markers and the locks).
pub const ALL_HIDE_MASK: u32 = 0xffc0_1e1b;

impl ObjectFlags {
    /// The bit position of the flag; `Zero` has none.
    pub open spec fn bit_index(self) -> u32 {
        match self {
            ObjectFlags::Zero => 32,
            ObjectFlags::Destroyed => 0,
            ObjectFlags::RealDestroyed => 1,
            ObjectFlags::ToDestroy => 2,
            ObjectFlags::DontSave => 3,
            ObjectFlags::EditOnly => 4,
            ObjectFlags::Dirty => 5,
            ObjectFlags::Destroying => 6,
            ObjectFlags::DontDestroy => 7,
            ObjectFlags::Deactivating => 8,
            ObjectFlags::IsPreloadStarted => 13,
            ObjectFlags::IsOnLoadCalled => 14,
            ObjectFlags::IsOnLoadStarted => 15,
            ObjectFlags::IsStartCalled => 16,
            ObjectFlags::IsRotationLocked => 17,
            ObjectFlags::IsScaleLocked => 18,
            ObjectFlags::IsAnchorLocked => 19,
            ObjectFlags::IsSizeLocked => 20,
            ObjectFlags::IsPositionLocked => 21,
            ObjectFlags::IsReplicated => 22,
            ObjectFlags::IsClientLoad => 23,
            ObjectFlags::IsSkipTransformUpdate => 24,
        }
    }

    /// The flag's value as a bit mask: `1 << bit_index`, and 0 for `Zero`.
    pub open spec fn spec_bits(self) -> u32 {
        match self {
            ObjectFlags::Zero => 0,
            ObjectFlags::Destroyed => 0x1,
            ObjectFlags::RealDestroyed => 0x2,
            ObjectFlags::ToDestroy => 0x4,
            ObjectFlags::DontSave => 0x8,
            ObjectFlags::EditOnly => 0x10,
            ObjectFlags::Dirty => 0x20,
            ObjectFlags::Destroying => 0x40,
            ObjectFlags::DontDestroy => 0x80,
            ObjectFlags::Deactivating => 0x100,
            ObjectFlags::IsPreloadStarted => 0x2000,
            ObjectFlags::IsOnLoadCalled => 0x4000,
            ObjectFlags::IsOnLoadStarted => 0x8000,
            ObjectFlags::IsStartCalled => 0x1_0000,
            ObjectFlags::IsRotationLocked => 0x2_0000,
            ObjectFlags::IsScaleLocked => 0x4_0000,
            ObjectFlags::IsAnchorLocked => 0x8_0000,
            ObjectFlags::IsSizeLocked => 0x10_0000,
            ObjectFlags::IsPositionLocked => 0x20_0000,
            ObjectFlags::IsReplicated => 0x40_0000,
            ObjectFlags::IsClientLoad => 0x80_0000,
            ObjectFlags::IsSkipTransformUpdate => 0x100_0000,
        }
    }

    /// The flag's value as a bit mask.
    pub fn bits(self) -> (r: u32)
        ensures
            r == self.spec_bits(),
    {
        match self {
            ObjectFlags::Zero => 0,
            ObjectFlags::Destroyed => 0x1,
            ObjectFlags::RealDestroyed => 0x2,
            ObjectFlags::ToDestroy => 0x4,
            ObjectFlags::DontSave => 0x8,
            ObjectFlags::EditOnly => 0x10,
            ObjectFlags::Dirty => 0x20,
            ObjectFlags::Destroying => 0x40,
            ObjectFlags::DontDestroy => 0x80,
            ObjectFlags::Deactivating => 0x100,
            ObjectFlags::IsPreloadStarted => 0x2000,
            ObjectFlags::IsOnLoadCalled => 0x4000,
            ObjectFlags::IsOnLoadStarted => 0x8000,
            ObjectFlags::IsStartCalled => 0x1_0000,
            ObjectFlags::IsRotationLocked => 0x2_0000,
            ObjectFlags::IsScaleLocked => 0x4_0000,
            ObjectFlags::IsAnchorLocked => 0x8_0000,
            ObjectFlags::IsSizeLocked => 0x10_0000,
            ObjectFlags::IsPositionLocked => 0x20_0000,
            ObjectFlags::IsReplicated => 0x40_0000,
            ObjectFlags::IsClientLoad => 0x80_0000,
            ObjectFlags::IsSkipTransformUpdate => 0x100_0000,
        }
    }

    /// The flags that `set_hide_flags` may change.
    pub fn all_hide_mask() -> (r: u32)
        ensures
            r == ALL_HIDE_MASK,
    {
        ALL_HIDE_MASK
    }

    /// Whether `flags` holds any flag of the hide mask.
    pub fn has_any_hide_flag(flags: u32) -> (r: bool)
        ensures
            r == (flags & ALL_HIDE_MASK != 0),
    {
        (flags & ALL_HIDE_MASK) != 0
    }
}

/// The hide mask is every bit except the runtime-state flags.
pub proof fn lemma_all_hide_mask()
    ensures
        ALL_HIDE_MASK == !(ObjectFlags::ToDestroy.spec_bits() | ObjectFlags::Dirty.spec_bits()
            | ObjectFlags::Destroying.spec_bits() | ObjectFlags::DontDestroy.spec_bits()
            | ObjectFlags::Deactivating.spec_bits() | ObjectFlags::IsPreloadStarted.spec_bits()
            | ObjectFlags::IsOnLoadCalled.spec_bits() | ObjectFlags::IsOnLoadStarted.spec_bits()
            | ObjectFlags::IsStartCalled.spec_bits() | ObjectFlags::IsRotationLocked.spec_bits()
            | ObjectFlags::IsScaleLocked.spec_bits() | ObjectFlags::IsAnchorLocked.spec_bits()
            | ObjectFlags::IsSizeLocked.spec_bits() | ObjectFlags::IsPositionLocked.spec_bits()),
{
    assert(0xffc0_1e1bu32 == !(0x4u32 | 0x20u32 | 0x40u32 | 0x80u32 | 0x100u32 | 0x2000u32
        | 0x4000u32 | 0x8000u32 | 0x1_0000u32 | 0x2_0000u32 | 0x4_0000u32 | 0x8_0000u32
        | 0x10_0000u32 | 0x20_0000u32)) by (bit_vector);
}

/// `flags` with `f` raised (`v`) or cleared.
pub open spec fn flags_with(flags: u32, f: ObjectFlags, v: bool) -> u32 {
    if v {
        flags | f.spec_bits()
    } else {
        flags & !f.spec_bits()
    }
}

/// Whether `flags` holds `f`.
pub open spec fn flag_set(flags: u32, f: ObjectFlags) -> bool {
    flags & f.spec_bits() != 0
}

proof fn lemma_single_bits()
    by (bit_vector)
    ensures
        1u32 << 0u32 == 0x1u32,
        1u32 << 1u32 == 0x2u32,
        1u32 << 2u32 == 0x4u32,
        1u32 << 3u32 == 0x8u32,
        1u32 << 4u32 == 0x10u32,
        1u32 << 5u32 == 0x20u32,
        1u32 << 6u32 == 0x40u32,
        1u32 << 7u32 == 0x80u32,
        1u32 << 8u32 == 0x100u32,
        1u32 << 13u32 == 0x2000u32,
        1u32 << 14u32 == 0x4000u32,
        1u32 << 15u32 == 0x8000u32,
        1u32 << 16u32 == 0x1_0000u32,
        1u32 << 17u32 == 0x2_0000u32,
        1u32 << 18u32 == 0x4_0000u32,
        1u32 << 19u32 == 0x8_0000u32,
        1u32 << 20u32 == 0x10_0000u32,
        1u32 << 21u32 == 0x20_0000u32,
        1u32 << 22u32 == 0x40_0000u32,
        1u32 << 23u32 == 0x80_0000u32,
        1u32 << 24u32 == 0x100_0000u32,
{
}

proof fn lemma_bit_ops(x: u32, i: u32, j: u32)
    by (bit_vector)
    requires
        i < 32,
        j < 32,
        i != j,
    ensures
        (x | (1u32 << i)) & (1u32 << i) != 0,
        (x & !(1u32 << i)) & (1u32 << i) == 0,
        ((x | (1u32 << i)) & (1u32 << j) != 0) == (x & (1u32 << j) != 0),
        ((x & !(1u32 << i)) & (1u32 << j) != 0) == (x & (1u32 << j) != 0),
{
}

proof fn lemma_zero_bits(x: u32)
    by (bit_vector)
    ensures
        x | 0u32 == x,
        x & !0u32 == x,
        x & 0u32 == 0u32,
{
}

proof fn lemma_flag_bits(f: ObjectFlags)
    ensures
        f != ObjectFlags::Zero ==> f.bit_index() < 32 && f.spec_bits() == 1u32 << f.bit_index(),
        f == ObjectFlags::Zero ==> f.spec_bits() == 0,
{
    lemma_single_bits();
}

/// Raising or clearing a flag sets that flag as asked and leaves every other
/// flag as it was; `Zero` changes nothing and is never set.
pub proof fn lemma_flags_with(flags: u32, f: ObjectFlags, v: bool, g: ObjectFlags)
    ensures
        flag_set(flags_with(flags, f, v), g) == if g == f && f != ObjectFlags::Zero {
            v
        } else {
            flag_set(flags, g)
        },
{
    lemma_flag_bits(f);
    lemma_flag_bits(g);
    lemma_zero_bits(flags);
    lemma_zero_bits(flags_with(flags, f, v));
    if f != ObjectFlags::Zero && g != ObjectFlags::Zero {
        if f == g {
            lemma_bit_ops(flags, f.bit_index(), if f.bit_index() == 0 { 1u32 } else { 0u32 });
        } else {
            assert(f.bit_index() != g.bit_index());
            lemma_bit_ops(flags, f.bit_index(), g.bit_index());
        }
    }
}

/// Marker for types that scripts can drive.
pub trait Scriptable {
}

/// Reference counting of a shared object.
pub trait RefCounted {
    fn add_ref(&mut self);

    fn release(&mut self);

    fn get_ref_count(&self) -> u32;

    fn is_last_reference(&self) -> bool;
}

/// An engine object: a name, an id, hide flags and a deferred destruction.
pub trait Object: RefCounted {
    /// Whether the object has not been destroyed.
    spec fn spec_valid(&self) -> bool;

    /// The object's hide flags.
    spec fn spec_hide_flags(&self) -> u32;

    fn get_name(&self) -> &str;

    fn set_name(&mut self, name: &str);

    fn get_id(&self) -> u64;

    fn set_hide_flags(&mut self, flags: u32);

    fn get_hide_flags(&self) -> (r: u32)
        ensures
            r == self.spec_hide_flags(),
    ;

    fn is_valid(&self) -> (r: bool)
        ensures
            r == self.spec_valid(),
    ;

    fn destroy(&mut self) -> bool;

    fn to_string(&self) -> String;
}

/// Hands out object ids in sequence, from 1. A program keeps one of these
/// for all its objects.
pub struct ObjectIdCounter {
    next: u64,
}

impl ObjectIdCounter {
    /// The id the next call of `next_id` gives.
    pub closed spec fn upcoming(&self) -> u64 {
        self.next
    }

    pub fn new() -> (r: Self)
        ensures
            r.upcoming() == 1,
    {
        ObjectIdCounter { next: 1 }
    }

    /// The next id; each call gives the one after the last, wrapping to 0
    /// after `u64::MAX`.
    pub fn next_id(&mut self) -> (r: u64)
        ensures
            r == old(self).upcoming(),
            final(self).upcoming() == if old(self).upcoming() == u64::MAX {
                0
            } else {
                old(self).upcoming() + 1
            },
    {
        let r = self.next;
        self.next = self.next.wrapping_add(1);
        r
    }
}

/// The basic engine object.
#[derive(Debug)]
pub struct CCObject {
    pub name: String,
    id: u64,
    ref_count: u32,
    flags: u32,
}

impl CCObject {
    /// The object's name.
    pub closed spec fn name_view(&self) -> Seq<char> {
        self.name@
    }

    pub closed spec fn id(&self) -> u64 {
        self.id
    }

    pub closed spec fn ref_count(&self) -> u32 {
        self.ref_count
    }

    pub closed spec fn flags(&self) -> u32 {
        self.flags
    }

    /// A new object with id `id`, one reference and no flags.
    pub fn with_id(name: &str, id: u64) -> (r: Self)
        ensures
            r.name_view() == name@,
            r.id() == id,
            r.ref_count() == 1,
            r.flags() == 0,
    {
        CCObject { name: name.to_string(), id, ref_count: 1, flags: 0 }
    }

    /// A new object with one reference, no flags and a fresh random id; a
    /// program that wants ids in sequence takes them from one
    /// [`ObjectIdCounter`] and calls `with_id`.
    pub fn new(name: &str) -> (r: Self)
        ensures
            r.name_view() == name@,
            r.ref_count() == 1,
            r.flags() == 0,
    {
        CCObject { name: name.to_string(), id: random_u64(), ref_count: 1, flags: 0 }
    }

    pub fn is_destroyed(&self) -> (r: bool)
        ensures
            r == flag_set(self.flags(), ObjectFlags::Destroyed),
    {
        (self.flags & ObjectFlags::Destroyed.bits()) != 0
    }

    pub fn is_to_destroy(&self) -> (r: bool)
        ensures
            r == flag_set(self.flags(), ObjectFlags::ToDestroy),
    {
        (self.flags & ObjectFlags::ToDestroy.bits()) != 0
    }

    pub fn is_destroying(&self) -> (r: bool)
        ensures
            r == flag_set(self.flags(), ObjectFlags::Destroying),
    {
        (self.flags & ObjectFlags::Destroying.bits()) != 0
    }

    pub fn dont_destroy(&self) -> (r: bool)
        ensures
            r == flag_set(self.flags(), ObjectFlags::DontDestroy),
    {
        (self.flags & ObjectFlags::DontDestroy.bits()) != 0
    }

    /// Raises (`value`) or clears `flag`.
    pub fn set_flag(&mut self, flag: ObjectFlags, value: bool)
        ensures
            final(self).flags() == flags_with(old(self).flags(), flag, value),
            final(self).name_view() == old(self).name_view(),
            final(self).id() == old(self).id(),
            final(self).ref_count() == old(self).ref_count(),
    {
        if value {
            self.flags = self.flags | flag.bits();
        } else {
            self.flags = self.flags & !flag.bits();
        }
    }

    pub fn has_flag(&self, flag: ObjectFlags) -> (r: bool)
        ensures
            r == flag_set(self.flags(), flag),
    {
        (self.flags & flag.bits()) != 0
    }
}

impl RefCounted for CCObject {
    /// One more reference (the count wraps around at `u32::MAX`).
    fn add_ref(&mut self)
        ensures
            final(self).ref_count() == old(self).ref_count().wrapping_add(1),
            final(self).flags() == old(self).flags(),
            final(self).name_view() == old(self).name_view(),
            final(self).id() == old(self).id(),
    {
        self.ref_count = self.ref_count.wrapping_add(1);
    }

    /// One reference less (the count wraps around below zero).
    fn release(&mut self)
        ensures
            final(self).ref_count() == old(self).ref_count().wrapping_sub(1),
            final(self).flags() == old(self).flags(),
            final(self).name_view() == old(self).name_view(),
            final(self).id() == old(self).id(),
    {
        self.ref_count = self.ref_count.wrapping_sub(1);
    }

    fn get_ref_count(&self) -> (r: u32)
        ensures
            r == self.ref_count(),
    {
        self.ref_count
    }

    fn is_last_reference(&self) -> (r: bool)
        ensures
            r == (self.ref_count() == 1),
    {
        self.ref_count == 1
    }
}

impl Object for CCObject {
    open spec fn spec_valid(&self) -> bool {
        !flag_set(self.flags(), ObjectFlags::Destroyed)
    }

    open spec fn spec_hide_flags(&self) -> u32 {
        self.flags() & ALL_HIDE_MASK
    }

    fn get_name(&self) -> (r: &str)
        ensures
            r@ == self.name_view(),
    {
        self.name.as_str()
    }

    fn set_name(&mut self, name: &str)
        ensures
            final(self).name_view() == name@,
            final(self).flags() == old(self).flags(),
            final(self).id() == old(self).id(),
            final(self).ref_count() == old(self).ref_count(),
    {
        self.name = name.to_string();
    }

    fn get_id(&self) -> (r: u64)
        ensures
            r == self.id(),
    {
        self.id
    }

    /// Replaces the flags of the hide mask by those of `flags`; the others stay.
    fn set_hide_flags(&mut self, flags: u32)
        ensures
            final(self).flags() == (old(self).flags() & !ALL_HIDE_MASK) | (flags & ALL_HIDE_MASK),
            final(self).name_view() == old(self).name_view(),
            final(self).id() == old(self).id(),
            final(self).ref_count() == old(self).ref_count(),
    {
        self.flags = (self.flags & !ALL_HIDE_MASK) | (flags & ALL_HIDE_MASK);
    }

    fn get_hide_flags(&self) -> (r: u32) {
        self.flags & ALL_HIDE_MASK
    }

    fn is_valid(&self) -> (r: bool) {
        !self.is_destroyed()
    }

    /// Marks the object for destruction; `false` when it already is marked
    /// or destroyed.
    fn destroy(&mut self) -> (r: bool)
        ensures
            r == !(flag_set(old(self).flags(), ObjectFlags::ToDestroy) || flag_set(
                old(self).flags(),
                ObjectFlags::Destroyed,
            )),
            final(self).flags() == if r {
                flags_with(old(self).flags(), ObjectFlags::ToDestroy, true)
            } else {
                old(self).flags()
            },
            final(self).name_view() == old(self).name_view(),
            final(self).id() == old(self).id(),
            final(self).ref_count() == old(self).ref_count(),
    {
        if self.is_to_destroy() || self.is_destroyed() {
            return false;
        }
        self.set_flag(ObjectFlags::ToDestroy, true);
        true
    }

    /// `[CCObject] <name> (id=<id>)`.
    fn to_string(&self) -> (r: String)
        ensures
            r@ == "[CCObject] "@ + self.name_view() + " (id="@ + decimal(self.id() as nat) + ")"@,
    {
        let mut out = String::new();
        push_str(&mut out, "[CCObject] ");
        push_str(&mut out, self.name.as_str());
        push_str(&mut out, " (id=");
        push_decimal(&mut out, self.id);
        push_str(&mut out, ")");
        out
    }
}

impl Default for CCObject {
    fn default() -> (r: Self)
        ensures
            r.name_view() == "Object"@,
            r.ref_count() == 1,
            r.flags() == 0,
    {
        Self::new("Object")
    }
}

/// Processes the objects marked for destruction. Marking only raises the
/// `ToDestroy` flag, which this does not touch, so it has no effect.
pub fn deferred_destroy_tick() {
}

/// Same as [`deferred_destroy_tick`].
pub fn deferred_destroy() {
    deferred_destroy_tick();
}

/// Whether `obj` is valid; in strict mode its hide flags must also not
/// hold `Destroyed`.
pub fn is_object_valid<T: Object>(obj: &T, strict_mode: bool) -> (r: bool)
    ensures
        r == (obj.spec_valid() && !(strict_mode && flag_set(
            obj.spec_hide_flags(),
            ObjectFlags::Destroyed,
        ))),
{
    if !obj.is_valid() {
        return false;
    }
    if strict_mode && (obj.get_hide_flags() & ObjectFlags::Destroyed.bits()) != 0 {
        return false;
    }
    true
}

/// `std::sync::Mutex`, held here only to be handed out.
#[verifier::external_type_specification]
#[verifier::external_body]
#[verifier::reject_recursive_types(T)]
pub struct ExMutex<T: ?Sized>(Mutex<T>);

/// `Mutex::new`: a new unlocked mutex that owns `value`. What the mutex
/// holds is not visible here, so nothing is claimed of the result.
#[verifier::external_body]
fn new_mutex<T>(value: T) -> Mutex<T> {
    Mutex::new(value)
}

/// `Arc::clone`: another handle to the same allocation, so the value behind
/// it is the same.
#[verifier::external_body]
fn share<T>(a: &Arc<T>) -> (r: Arc<T>)
    ensures
        r == *a,
{
    Arc::clone(a)
}

/// Slots of shared objects addressed by index; freed slots are reused, the
/// most recently freed first.
#[verifier::reject_recursive_types(T)]
pub struct ObjectPool<T> {
    objects: Vec<Option<Arc<Mutex<T>>>>,
    free_indices: Vec<usize>,
}

/// A sequence of distinct indices below `n` has at most `n` of them.
proof fn lemma_distinct_below(s: Seq<usize>, n: nat)
    requires
        s.no_duplicates(),
        forall|i: int| 0 <= i < s.len() ==> #[trigger] s[i] < n,
    ensures
        s.len() <= n,
    decreases n,
{
    if n == 0 {
        if s.len() > 0 {
            assert(s[0] < 0);
        }
    } else {
        let top = (n - 1) as usize;
        if s.contains(top) {
            let k = choose|k: int| 0 <= k < s.len() && s[k] == top;
            let t = s.remove(k);
            assert forall|i: int| 0 <= i < t.len() implies #[trigger] t[i] < n - 1 by {
                let j = if i < k { i } else { i + 1 };
                assert(t[i] == s[j]);
                assert(j != k);
            }
            assert(t.no_duplicates()) by {
                assert forall|a: int, b: int| 0 <= a < b < t.len() implies t[a] != t[b] by {
                    let ja = if a < k { a } else { a + 1 };
                    let jb = if b < k { b } else { b + 1 };
                    assert(t[a] == s[ja]);
                    assert(t[b] == s[jb]);
                }
            }
            lemma_distinct_below(t, (n - 1) as nat);
        } else {
            assert forall|i: int| 0 <= i < s.len() implies #[trigger] s[i] < n - 1 by {
                if s[i] == top {
                    assert(s.contains(top));
                }
            }
            lemma_distinct_below(s, (n - 1) as nat);
        }
    }
}

/// The occupied slots of `slots` with their indices, in index order.
pub open spec fn occupied<T>(slots: Seq<Option<Arc<Mutex<T>>>>) -> Seq<(usize, Arc<Mutex<T>>)>
    decreases slots.len(),
{
    if slots.len() == 0 {
        Seq::empty()
    } else {
        let rest = occupied(slots.drop_last());
        match slots.last() {
            Some(a) => rest.push(((slots.len() - 1) as usize, a)),
            None => rest,
        }
    }
}

impl<T> ObjectPool<T> {
    /// The slots, `None` where freed.
    pub closed spec fn slots(&self) -> Seq<Option<Arc<Mutex<T>>>> {
        self.objects@
    }

    /// The freed slot indices, the next to reuse last.
    pub closed spec fn free_list(&self) -> Seq<usize> {
        self.free_indices@
    }

    /// Well-formedness: every freed index names a slot.
    pub open spec fn wf(&self) -> bool {
        forall|i: int| 0 <= i < self.free_list().len() ==> #[trigger] self.free_list()[i] < self.slots().len()
    }

    /// The free list is exact: no index is queued twice and every queued
    /// slot is empty, so there are no more queued indices than slots.
    /// Freeing only occupied slots keeps it so.
    pub open spec fn exact_free_list(&self) -> bool {
        &&& self.wf()
        &&& self.free_list().no_duplicates()
        &&& forall|i: int| 0 <= i < self.free_list().len() ==> self.slots()[#[trigger] self.free_list()[i] as int] is None
        &&& self.free_list().len() <= self.slots().len()
    }

    pub fn new() -> (r: Self)
        ensures
            r.wf(),
            r.exact_free_list(),
            r.slots().len() == 0,
            r.free_list().len() == 0,
    {
        ObjectPool { objects: Vec::new(), free_indices: Vec::new() }
    }

    pub fn with_capacity(capacity: usize) -> (r: Self)
        ensures
            r.wf(),
            r.exact_free_list(),
            r.slots().len() == 0,
            r.free_list().len() == 0,
    {
        ObjectPool { objects: Vec::with_capacity(capacity), free_indices: Vec::new() }
    }

    /// Stores `obj` in the most recently freed slot, or in a new slot at the
    /// end; returns the slot's index.
    pub fn allocate(&mut self, obj: T) -> (r: usize)
        requires
            old(self).wf(),
            old(self).free_list().len() == 0 ==> old(self).slots().len() < usize::MAX,
        ensures
            final(self).wf(),
            allocate_step(*old(self), r, *final(self)),
            old(self).exact_free_list() ==> final(self).exact_free_list(),
            old(self).free_list().len() > 0 ==> {
                &&& r == old(self).free_list().last()
                &&& final(self).free_list() == old(self).free_list().drop_last()
            },
            old(self).free_list().len() == 0 ==> {
                &&& r == old(self).slots().len()
                &&& final(self).free_list() == old(self).free_list()
            },
            r < final(self).slots().len(),
            final(self).slots()[r as int] is Some,
            final(self).slots() == if old(self).free_list().len() > 0 {
                old(self).slots().update(r as int, final(self).slots()[r as int])
            } else {
                old(self).slots().push(final(self).slots()[r as int])
            },
    {
        let shared = Arc::new(new_mutex(obj));
        match self.free_indices.pop() {
            Some(idx) => {
                assert(idx < self.objects@.len()) by {
                    assert(old(self).free_list()[old(self).free_list().len() - 1] == idx);
                }
                self.objects.set(idx, Some(shared));
                proof {
                    let f = old(self).free_list();
                    assert(self.free_list() =~= f.drop_last());
                    if old(self).exact_free_list() {
                        assert forall|i: int| 0 <= i < self.free_list().len() implies self.slots()[#[trigger] self.free_list()[i] as int] is None by {
                            assert(f[i] != f[f.len() - 1]);
                        }
                    }
                }
                idx
            },
            None => {
                let idx = self.objects.len();
                self.objects.push(Some(shared));
                proof {
                    if old(self).exact_free_list() {
                        assert forall|i: int| 0 <= i < self.free_list().len() implies self.slots()[#[trigger] self.free_list()[i] as int] is None by {
                            assert(self.slots()[self.free_list()[i] as int] == old(self).slots()[self.free_list()[i] as int]);
                        }
                    }
                }
                idx
            },
        }
    }

    /// Empties slot `idx` and queues it for reuse; does nothing when `idx`
    /// is past the slots.
    pub fn free(&mut self, idx: usize)
        requires
            old(self).wf(),
        ensures
            final(self).wf(),
            free_step(*old(self), idx, *final(self)),
            old(self).exact_free_list() && (idx >= old(self).slots().len() || old(self).slots()[idx as int] is Some)
                ==> final(self).exact_free_list(),
            idx < old(self).slots().len() ==> {
                &&& final(self).slots() == old(self).slots().update(idx as int, None)
                &&& final(self).free_list() == old(self).free_list().push(idx)
            },
            idx >= old(self).slots().len() ==> {
                &&& final(self).slots() == old(self).slots()
                &&& final(self).free_list() == old(self).free_list()
            },
    {
        if idx < self.objects.len() {
            self.objects.set(idx, None);
            self.free_indices.push(idx);
            assert forall|i: int| 0 <= i < self.free_list().len() implies #[trigger] self.free_list()[i]
                < self.slots().len() by {
                if i < old(self).free_list().len() {
                    assert(self.free_list()[i] == old(self).free_list()[i]);
                }
            }
            proof {
                let f = old(self).free_list();
                if old(self).exact_free_list() && old(self).slots()[idx as int] is Some {
                    assert(self.free_list() =~= f.push(idx));
                    assert forall|i: int| 0 <= i < f.len() implies f[i] != idx by {
                        assert(old(self).slots()[f[i] as int] is None);
                    }
                    assert(self.free_list().no_duplicates()) by {
                        assert forall|a: int, b: int| 0 <= a < b < f.len() + 1 implies f.push(idx)[a] != f.push(idx)[b] by {
                            if b == f.len() {
                                assert(f[a] != idx);
                            }
                        }
                    }
                    assert forall|i: int| 0 <= i < self.free_list().len() implies self.slots()[#[trigger] self.free_list()[i] as int] is None by {
                        if i < f.len() {
                            assert(self.free_list()[i] == f[i]);
                        }
                    }
                    lemma_distinct_below(self.free_list(), self.slots().len());
                }
            }
        }
    }

    /// Another handle to the object in slot `idx`, if it is occupied.
    pub fn get(&self, idx: usize) -> (r: Option<Arc<Mutex<T>>>)
        ensures
            r == if idx < self.slots().len() {
                self.slots()[idx as int]
            } else {
                None
            },
    {
        if idx < self.objects.len() {
            match &self.objects[idx] {
                Some(a) => Some(share(a)),
                None => None,
            }
        } else {
            None
        }
    }

    /// Slots minus freed indices (a slot freed twice counts twice).
    pub fn len(&self) -> (r: usize)
        requires
            self.free_list().len() <= self.slots().len(),
        ensures
            r == self.slots().len() - self.free_list().len(),
    {
        self.objects.len() - self.free_indices.len()
    }

    pub fn is_empty(&self) -> (r: bool)
        requires
            self.free_list().len() <= self.slots().len(),
        ensures
            r == (self.slots().len() == self.free_list().len()),
    {
        self.len() == 0
    }

    /// The occupied slots with their indices, in index order.
    pub fn iter(&self) -> (r: Vec<(usize, Arc<Mutex<T>>)>)
        ensures
            r@ == occupied(self.slots()),
    {
        let mut r: Vec<(usize, Arc<Mutex<T>>)> = Vec::new();
        let mut i: usize = 0;
        while i < self.objects.len()
            invariant
                i <= self.objects@.len(),
                r@ == occupied(self.objects@.take(i as int)),
            decreases self.objects@.len() - i,
        {
            assert(self.objects@.take(i + 1).drop_last() =~= self.objects@.take(i as int));
            match &self.objects[i] {
                Some(a) => {
                    r.push((i, share(a)));
                },
                None => {},
            }
            i = i + 1;
        }
        assert(self.objects@.take(i as int) =~= self.objects@);
        r
    }
}

impl<T> Default for ObjectPool<T> {
    fn default() -> (r: Self)
        ensures
            r.wf(),
            r.exact_free_list(),
            r.slots().len() == 0,
            r.free_list().len() == 0,
    {
        Self::new()
    }
}

/// A handle to a pooled object: its slot index.
pub type ObjectHandle = usize;

/// A handle that names no object.
pub const INVALID_HANDLE: ObjectHandle = usize::MAX;

/// What `free(idx)` does to a pool: an index past the slots changes
/// nothing, any other slot is emptied and queued for reuse.
pub open spec fn free_step<T>(before: ObjectPool<T>, idx: usize, after: ObjectPool<T>) -> bool {
    if idx < before.slots().len() {
        &&& after.slots() == before.slots().update(idx as int, None)
        &&& after.free_list() == before.free_list().push(idx)
    } else {
        &&& after.slots() == before.slots()
        &&& after.free_list() == before.free_list()
    }
}

/// What `allocate` returning `r` does to a pool: the most recently freed
/// slot is reused, or a slot is added at the end, and it is occupied.
pub open spec fn allocate_step<T>(before: ObjectPool<T>, r: usize, after: ObjectPool<T>) -> bool {
    &&& r < after.slots().len()
    &&& after.slots()[r as int] is Some
    &&& if before.free_list().len() > 0 {
        &&& r == before.free_list().last()
        &&& after.free_list() == before.free_list().drop_last()
        &&& after.slots() == before.slots().update(r as int, after.slots()[r as int])
    } else {
        &&& r == before.slots().len()
        &&& after.free_list() == before.free_list()
        &&& after.slots() == before.slots().push(after.slots()[r as int])
    }
}

/// Freeing an occupied slot and then allocating gives that slot back,
/// occupied again, with the free list as it was before the free and every
/// other slot untouched.
pub proof fn lemma_free_then_alloc_reuses<T>(p0: ObjectPool<T>, idx: usize, p1: ObjectPool<T>, r: usize, p2: ObjectPool<T>)
    requires
        idx < p0.slots().len(),
        free_step(p0, idx, p1),
        allocate_step(p1, r, p2),
    ensures
        r == idx,
        p2.free_list() == p0.free_list(),
        p2.slots().len() == p0.slots().len(),
        p2.slots()[idx as int] is Some,
        forall|j: int| 0 <= j < p0.slots().len() && j != idx ==> p2.slots()[j] == p0.slots()[j],
{
}

} // verus!
