//! The runtime context: all state of one emulated process, passed explicitly
//! to every operation.

use crate::cpu::Cpu;
use crate::frameworks::{HostObject, State};
use crate::mem::Mem;
use crate::objc::ObjC;
use vstd::prelude::*;

verus! {

/// State of one emulated process.
pub struct Environment {
    pub mem: Mem,
    pub cpu: Cpu,
    pub objc: ObjC<HostObject>,
    pub framework_state: State,
}

impl Environment {
    /// Every part of the context is well-formed.
    pub open spec fn wf(&self) -> bool {
        self.mem.wf() && self.objc.wf()
    }

    /// Whether nothing differs from `before` but, at most, what the bytes of
    /// guest memory hold.
    pub open spec fn kept_but_contents(&self, before: &Environment) -> bool {
        &&& self.cpu == before.cpu
        &&& self.objc == before.objc
        &&& self.framework_state == before.framework_state
        &&& self.mem.records() == before.mem.records()
        &&& self.mem.brk() == before.mem.brk()
    }

    /// Whether nothing differs from `before` but, at most, the object
    /// runtime.
    pub open spec fn kept_but_objc(&self, before: &Environment) -> bool {
        &&& self.cpu == before.cpu
        &&& self.mem == before.mem
        &&& self.framework_state == before.framework_state
    }

    /// Whether nothing differs from `before` but, at most, the objects of
    /// the runtime and guest memory.
    pub open spec fn kept_but_objects(&self, before: &Environment) -> bool {
        &&& self.cpu == before.cpu
        &&& self.framework_state == before.framework_state
        &&& self.objc.selectors() == before.objc.selectors()
        &&& self.objc.classes() == before.objc.classes()
        &&& self.objc.pools() == before.objc.pools()
    }

    /// Whether the context is that of a process that has not yet loaded
    /// anything: guest memory holds the unmapped null page only, every
    /// register is cleared, the object runtime knows no selector, class,
    /// object or pool, and no framework has kept anything.
    pub open spec fn is_fresh(&self) -> bool {
        &&& self.mem.records() == Seq::<crate::mem::AllocRecord>::empty()
        &&& self.mem.brk() == crate::mem::NULL_PAGE_SIZE
        &&& forall|i: int| 0 <= i < 16 ==> self.cpu.regs@[i] == 0
        &&& self.objc.selectors().len() == 0
        &&& self.objc.classes().len() == 0
        &&& self.objc.objects() == Map::<u32, crate::objc::ObjectEntry<HostObject>>::empty()
        &&& self.objc.pools().len() == 0
        &&& self.framework_state.audio_toolbox.audio_components.audio_component_instances@
            == Map::<
            u32,
            crate::frameworks::audio_toolbox::audio_components::AudioComponentInstanceHostObject,
        >::empty()
        &&& self.framework_state.foundation.ns_bundle.main_bundle is None
        &&& self.framework_state.foundation.ns_file_manager.default_manager is None
        &&& self.framework_state.uikit.ui_view.views@ == Seq::<crate::objc::id>::empty()
    }

    /// The context of a process that has not yet loaded anything.
    pub fn new() -> (env: Environment)
        ensures
            env.wf(),
            env.is_fresh(),
    {
        Environment {
            mem: Mem::new(),
            cpu: Cpu::new(),
            objc: ObjC::new(),
            framework_state: State::new(),
        }
    }
}

} // verus!
