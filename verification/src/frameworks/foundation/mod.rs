//! Foundation.

pub mod ns_user_defaults;

use vstd::prelude::*;

verus! {

/// The state of Foundation.
pub struct State {
    pub ns_user_defaults: ns_user_defaults::State,
}

impl State {
    /// Whether this is the state at process start.
    pub open spec fn is_fresh(&self) -> bool {
        self.ns_user_defaults.is_fresh()
    }

    /// The state at process start.
    pub fn new() -> (s: State)
        ensures
            s.is_fresh(),
    {
        State { ns_user_defaults: ns_user_defaults::State::new() }
    }
}

} // verus!
