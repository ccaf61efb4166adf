use vstd::prelude::*;

verus! {

/// The phases in which components are driven each frame.
#[derive(Debug, Clone, Copy, PartialEq, Eq, Hash, Structural)]
pub enum SchedulerPhase {
    Load,
    Start,
    Update,
    LateUpdate,
    Destroy,
}

} // verus!
