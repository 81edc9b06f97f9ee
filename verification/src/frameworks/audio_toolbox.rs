//! The Audio Toolbox framework.

use vstd::prelude::*;

pub mod audio_components;

verus! {

/// The state of the framework.
pub struct State {
    pub audio_components: audio_components::State,
}

impl State {
    /// The state without instances.
    pub fn new() -> (state: State)
        ensures
            state.audio_components.audio_component_instances@ == Map::<
                u32,
                audio_components::AudioComponentInstanceHostObject,
            >::empty(),
    {
        State { audio_components: audio_components::State::new() }
    }
}

} // verus!
