//! System frameworks, as far as this library provides them. Each is built on
//! guest memory, the call bridge and the object runtime.

use vstd::prelude::*;

pub mod audio_toolbox;
pub mod foundation;
pub mod uikit;

verus! {

/// The host side of an object of one of this library's classes.
pub enum HostObject {
    /// An object that needs no state on the host side.
    Trivial,
    Date(foundation::ns_date::NSDateHostObject),
    Error(foundation::ns_error::ErrorHostObject),
    Bundle(foundation::ns_bundle::NSBundleHostObject),
    View(uikit::ui_view::UIViewHostObject),
}

/// The state that the frameworks keep outside of objects.
pub struct State {
    pub audio_toolbox: audio_toolbox::State,
    pub foundation: foundation::State,
    pub uikit: uikit::State,
}

impl State {
    /// The state before any framework has been used.
    pub fn new() -> (state: State)
        ensures
            state.audio_toolbox.audio_components.audio_component_instances@ == Map::<
                u32,
                audio_toolbox::audio_components::AudioComponentInstanceHostObject,
            >::empty(),
            state.foundation.ns_bundle.main_bundle is None,
            state.foundation.ns_file_manager.default_manager is None,
            state.uikit.ui_view.views@ == Seq::<crate::objc::id>::empty(),
    {
        State {
            audio_toolbox: audio_toolbox::State::new(),
            foundation: foundation::State::new(),
            uikit: uikit::State::new(),
        }
    }
}

} // verus!
