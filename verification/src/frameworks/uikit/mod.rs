//! UIKit.

pub mod ui_view;

use vstd::prelude::*;

verus! {

/// The state of UIKit.
pub struct State {
    pub ui_view: ui_view::State,
}

impl State {
    /// Whether this is the state at process start.
    pub open spec fn is_fresh(&self) -> bool {
        self.ui_view.is_fresh()
    }

    /// The state at process start.
    pub fn new() -> (s: State)
        ensures
            s.is_fresh(),
    {
        State { ui_view: ui_view::State::new() }
    }
}

} // verus!
