//! The Foundation framework.

use vstd::prelude::*;

pub mod ns_bundle;
pub mod ns_date;
pub mod ns_error;
pub mod ns_file_manager;
pub mod ns_object;

verus! {

pub type NSInteger = i32;

pub type NSUInteger = u32;

/// The state of the framework.
pub struct State {
    pub ns_bundle: ns_bundle::State,
    pub ns_file_manager: ns_file_manager::State,
}

impl State {
    /// The state before any shared object has been made.
    pub fn new() -> (state: State)
        ensures
            state.ns_bundle.main_bundle is None,
            state.ns_file_manager.default_manager is None,
    {
        State {
            ns_bundle: ns_bundle::State { main_bundle: None },
            ns_file_manager: ns_file_manager::State { default_manager: None },
        }
    }
}

} // verus!
