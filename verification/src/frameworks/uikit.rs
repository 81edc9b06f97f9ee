//! The UIKit framework.

use vstd::prelude::*;

pub mod ui_view;

verus! {

/// The state of the framework.
pub struct State {
    pub ui_view: ui_view::State,
}

impl State {
    /// The state without views.
    pub fn new() -> (state: State)
        ensures
            state.ui_view.views@ == Seq::<crate::objc::id>::empty(),
    {
        State { ui_view: ui_view::State { views: Vec::new() } }
    }
}

} // verus!
