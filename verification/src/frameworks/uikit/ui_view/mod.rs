//! `UIView` and its subclasses.

pub mod ui_window;

use vstd::prelude::*;

verus! {

/// The state of the view classes.
pub struct State {
    pub ui_window: ui_window::State,
}

impl State {
    /// Whether this is the state at process start.
    pub open spec fn is_fresh(&self) -> bool {
        self.ui_window.is_fresh()
    }

    /// The state at process start.
    pub fn new() -> (s: State)
        ensures
            s.is_fresh(),
    {
        State { ui_window: ui_window::State::new() }
    }
}

} // verus!
