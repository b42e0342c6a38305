//! What the frameworks keep between calls. The frameworks themselves live
//! outside this crate; they reach guest objects only through the object
//! runtime and the memory manager.

pub mod core_foundation;
pub mod foundation;
pub mod uikit;

use vstd::prelude::*;

verus! {

/// The state of all frameworks.
pub struct State {
    pub foundation: foundation::State,
    pub uikit: uikit::State,
}

impl State {
    /// Whether this is the state at process start.
    pub open spec fn is_fresh(&self) -> bool {
        self.foundation.is_fresh() && self.uikit.is_fresh()
    }

    /// The state at process start.
    pub fn new() -> (s: State)
        ensures
            s.is_fresh(),
    {
        State { foundation: foundation::State::new(), uikit: uikit::State::new() }
    }
}

} // verus!
