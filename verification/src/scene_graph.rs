use std::marker::PhantomData;
use vstd::prelude::*;

verus! {

/// The space a transform is expressed in.
#[derive(Debug, Clone, Copy, PartialEq, Eq, Structural)]
pub enum NodeSpace {
    Local,
    World,
}

/// Parts of a node's transform that changed, as bits: position 1,
/// rotation 2, scale 4, skew 8, and their usual combinations.
#[derive(Debug, Clone, Copy, PartialEq, Eq, Structural)]
pub enum TransformBit {
    NoBits,
    Position,
    Rotation,
    Scale,
    Skew,
    RS,
    RSS,
    TRS,
}

impl TransformBit {
    /// The bit mask of the transform parts.
    pub open spec fn mask(self) -> u32 {
        match self {
            TransformBit::NoBits => 0,
            TransformBit::Position => 1,
            TransformBit::Rotation => 2,
            TransformBit::Scale => 4,
            TransformBit::Skew => 8,
            TransformBit::RS => 6,
            TransformBit::RSS => 14,
            TransformBit::TRS => 7,
        }
    }

    pub fn as_u32(self) -> (r: u32)
        ensures
            r == self.mask(),
    {
        match self {
            TransformBit::NoBits => 0,
            TransformBit::Position => 1,
            TransformBit::Rotation => 2,
            TransformBit::Scale => 4,
            TransformBit::Skew => 8,
            TransformBit::RS => 6,
            TransformBit::RSS => 14,
            TransformBit::TRS => 7,
        }
    }

    /// Whether `bits` shares a bit with this mask.
    pub fn contains(self, bits: u32) -> (r: bool)
        ensures
            r == (self.mask() & bits != 0),
    {
        (self.as_u32() & bits) != 0
    }
}

impl std::ops::BitOr for TransformBit {
    type Output = u32;

    fn bitor(self, rhs: TransformBit) -> (r: u32)
        ensures
            r == self.mask() | rhs.mask(),
    {
        self.as_u32() | rhs.as_u32()
    }
}

impl std::ops::BitOr<u32> for TransformBit {
    type Output = u32;

    fn bitor(self, rhs: u32) -> (r: u32)
        ensures
            r == self.mask() | rhs,
    {
        self.as_u32() | rhs
    }
}

impl std::ops::BitAnd for TransformBit {
    type Output = u32;

    fn bitand(self, rhs: TransformBit) -> (r: u32)
        ensures
            r == self.mask() & rhs.mask(),
    {
        self.as_u32() & rhs.as_u32()
    }
}

impl vstd::std_specs::ops::BitOrSpecImpl for TransformBit {
    open spec fn obeys_bitor_spec() -> bool {
        true
    }

    open spec fn bitor_req(self, rhs: TransformBit) -> bool {
        true
    }

    open spec fn bitor_spec(self, rhs: TransformBit) -> u32 {
        self.mask() | rhs.mask()
    }
}

impl vstd::std_specs::ops::BitOrSpecImpl<u32> for TransformBit {
    open spec fn obeys_bitor_spec() -> bool {
        true
    }

    open spec fn bitor_req(self, rhs: u32) -> bool {
        true
    }

    open spec fn bitor_spec(self, rhs: u32) -> u32 {
        self.mask() | rhs
    }
}

impl vstd::std_specs::ops::BitAndSpecImpl for TransformBit {
    open spec fn obeys_bitand_spec() -> bool {
        true
    }

    open spec fn bitand_req(self, rhs: TransformBit) -> bool {
        true
    }

    open spec fn bitand_spec(self, rhs: TransformBit) -> u32 {
        self.mask() & rhs.mask()
    }
}

/// How a node may move at run time.
#[derive(Debug, Clone, Copy, PartialEq, Eq, Structural)]
pub enum MobilityMode {
    Static,
    Stationary,
    Movable,
}

/// What happened to a node.
#[derive(Debug, Clone, PartialEq)]
pub enum NodeEventType {
    TransformChanged(u32),
    ParentChanged,
    ChildAdded(String),
    ChildRemoved(String),
    ActiveChanged(bool),
    MobilityChanged(MobilityMode),
}

/// A stored node event listener.
trait NodeListener {
    fn invoke(&self, event: &NodeEventType);
}

struct ClosureListener<F: Fn(&NodeEventType)> {
    f: F,
    marker: PhantomData<()>,
}

impl<F: Fn(&NodeEventType)> ClosureListener<F> {
    #[verifier::type_invariant]
    closed spec fn callable(self) -> bool {
        forall|e: &NodeEventType| call_requires(self.f, (e,))
    }
}

impl<F: Fn(&NodeEventType)> NodeListener for ClosureListener<F> {
    fn invoke(&self, event: &NodeEventType) {
        proof {
            use_type_invariant(self);
        }
        (self.f)(event);
    }
}

struct ListenerSlot {
    listener: Box<dyn NodeListener>,
}

impl ListenerSlot {
    fn new(listener: Box<dyn NodeListener>) -> (r: Self) {
        ListenerSlot { listener }
    }
}

/// Listeners of a node's events, called in registration order.
pub struct NodeEventEmitter {
    listeners: Vec<ListenerSlot>,
}

impl NodeEventEmitter {
    /// How many listeners are registered.
    pub closed spec fn listener_count(&self) -> nat {
        self.listeners@.len()
    }

    pub fn new() -> (r: Self)
        ensures
            r.listener_count() == 0,
    {
        NodeEventEmitter { listeners: Vec::new() }
    }

    /// Adds a listener after the others.
    pub fn on<F: Fn(&NodeEventType) + Send + Sync + 'static>(&mut self, listener: F)
        requires
            forall|e: &NodeEventType| call_requires(listener, (e,)),
        ensures
            final(self).listener_count() == old(self).listener_count() + 1,
    {
        let boxed: Box<dyn NodeListener> = Box::new(ClosureListener { f: listener, marker: PhantomData });
        let slot = ListenerSlot::new(boxed);
        self.listeners.push(slot);
    }

    /// Calls every listener with `event`, in registration order.
    pub fn emit(&self, event: &NodeEventType) {
        let mut i: usize = 0;
        while i < self.listeners.len()
            invariant
                i <= self.listeners@.len(),
            decreases self.listeners@.len() - i,
        {
            self.listeners[i].listener.invoke(event);
            i = i + 1;
        }
    }

    /// Removes every listener.
    pub fn clear(&mut self)
        ensures
            final(self).listener_count() == 0,
    {
        self.listeners.clear();
    }
}

impl Default for NodeEventEmitter {
    fn default() -> (r: Self)
        ensures
            r.listener_count() == 0,
    {
        Self::new()
    }
}

} // verus!
