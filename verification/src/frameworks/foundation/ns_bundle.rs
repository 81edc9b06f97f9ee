//! `NSBundle`.

use crate::bundle::Bundle;
use crate::environment::Environment;
use crate::frameworks::HostObject;
use crate::objc::{
    drained, id, misused_members, teardowns_due, Class, DrainReport, ObjCError, ObjectEntry,
};
use vstd::prelude::*;

verus! {

/// The state of the class: the bundle object of the program itself, once it
/// has been made.
pub struct State {
    pub main_bundle: Option<id>,
}

/// The host side of a bundle object.
pub struct NSBundleHostObject {
    /// `None` for the bundle of the program itself, which the embedder
    /// holds.
    pub _bundle: Option<Bundle>,
    /// String object with the bundle's path.
    pub bundle_path: id,
    /// URL object with the bundle's path, once it has been made.
    pub bundle_url: Option<id>,
    /// Dictionary object with the content of `Info.plist`, once it has been
    /// made.
    pub info_dictionary: Option<id>,
}

/// Why a function on bundles failed.
#[derive(Clone, Copy, Debug, PartialEq, Eq, Structural)]
pub enum BundleError {
    /// The runtime refused the operation.
    ObjC(ObjCError),
    /// The object is no bundle.
    NotABundle,
}

/// What a bundle refers to and drops at its teardown: its URL and its info
/// dictionary, as far as they have been made.
pub open spec fn referred(bundle_url: Option<id>, info_dictionary: Option<id>) -> Seq<id> {
    (match bundle_url {
        Some(url) => seq![url],
        None => Seq::<id>::empty(),
    }) + (match info_dictionary {
        Some(dictionary) => seq![dictionary],
        None => Seq::<id>::empty(),
    })
}

/// What a bundle object drops at its teardown, where the object is a bundle.
pub open spec fn references_of(env: &Environment, this: id) -> Result<Seq<id>, BundleError> {
    if !env.objc.is_object(this) {
        Err(BundleError::ObjC(ObjCError::NotFound))
    } else {
        match env.objc.objects()[this.addr].host_object {
            HostObject::Bundle(host_object) => Ok(
                referred(host_object.bundle_url, host_object.info_dictionary),
            ),
            _ => Err(BundleError::NotABundle),
        }
    }
}

/// The path object of a bundle, where the object is a bundle.
pub open spec fn path_of(env: &Environment, this: id) -> Result<id, BundleError> {
    if !env.objc.is_object(this) {
        Err(BundleError::ObjC(ObjCError::NotFound))
    } else {
        match env.objc.objects()[this.addr].host_object {
            HostObject::Bundle(host_object) => Ok(host_object.bundle_path),
            _ => Err(BundleError::NotABundle),
        }
    }
}

/// `+mainBundle`, first half: the bundle object of the program, where it has
/// been made.
pub fn main_bundle(env: &Environment) -> (res: Option<id>)
    ensures
        res == env.framework_state.foundation.ns_bundle.main_bundle,
{
    env.framework_state.foundation.ns_bundle.main_bundle
}

/// `+mainBundle`, second half: makes the bundle object of the program, with
/// the string object of its path, and keeps it for later calls.
pub fn create_main_bundle(env: &mut Environment, this: Class, bundle_path: id) -> (res: Result<
    id,
    ObjCError,
>)
    requires
        old(env).wf(),
    ensures
        final(env).wf(),
        final(env).cpu == old(env).cpu,
        final(env).objc.selectors() == old(env).objc.selectors(),
        final(env).objc.classes() == old(env).objc.classes(),
        final(env).objc.pools() == old(env).objc.pools(),
        final(env).framework_state.audio_toolbox == old(env).framework_state.audio_toolbox,
        final(env).framework_state.foundation.ns_file_manager == old(env).framework_state.foundation.ns_file_manager,
        res == old(env).objc.alloc_result(this, &old(env).mem),
        match res {
            Ok(obj) => {
                &&& final(env).framework_state.foundation.ns_bundle.main_bundle == Some(obj)
                &&& final(env).objc.objects() == old(env).objc.objects().insert(
                    obj.addr,
                    ObjectEntry {
                        class: this,
                        refcount: 1,
                        host_object: HostObject::Bundle(
                            NSBundleHostObject {
                                _bundle: None,
                                bundle_path,
                                bundle_url: None,
                                info_dictionary: None,
                            },
                        ),
                    },
                )
                &&& final(env).mem.records() == old(env).mem.records().push(
                    crate::mem::AllocRecord {
                        base: obj.addr,
                        size: crate::objc::INSTANCE_SIZE,
                        live: true,
                    },
                )
                &&& final(env).mem.contents().subrange(0, old(env).mem.brk()) == old(env).mem.contents()
            },
            Err(_) => *final(env) == *old(env),
        },
{
    let host_object = NSBundleHostObject {
        _bundle: None,
        bundle_path,
        bundle_url: None,
        info_dictionary: None,
    };
    let new = env.objc.alloc_object(this, HostObject::Bundle(host_object), &mut env.mem)?;
    env.framework_state.foundation.ns_bundle.main_bundle = Some(new);
    Ok(new)
}

/// `-bundlePath`.
pub fn bundle_path(env: &Environment, this: id) -> (res: Result<id, BundleError>)
    ensures
        res == path_of(env, this),
{
    match env.objc.borrow(this) {
        Ok(host_object) => match host_object {
            HostObject::Bundle(bundle) => Ok(bundle.bundle_path),
            _ => Err(BundleError::NotABundle),
        },
        Err(e) => Err(BundleError::ObjC(e)),
    }
}

/// The references that a bundle object holds.
fn references(env: &Environment, this: id) -> (res: Result<Vec<id>, BundleError>)
    ensures
        match res {
            Ok(list) => references_of(env, this) == Ok::<Seq<id>, BundleError>(list@),
            Err(e) => references_of(env, this) == Err::<Seq<id>, BundleError>(e),
        },
{
    match env.objc.borrow(this) {
        Ok(host_object) => match host_object {
            HostObject::Bundle(bundle) => {
                let mut list: Vec<id> = Vec::new();
                if let Some(url) = bundle.bundle_url {
                    list.push(url);
                }
                if let Some(dictionary) = bundle.info_dictionary {
                    list.push(dictionary);
                }
                assert(list@ =~= referred(bundle.bundle_url, bundle.info_dictionary));
                Ok(list)
            },
            _ => Err(BundleError::NotABundle),
        },
        Err(e) => Err(BundleError::ObjC(e)),
    }
}

/// What the teardown of a bundle object is answered with, apart from the
/// report of a success.
pub open spec fn dealloc_check(env: &Environment, this: id) -> Result<Seq<id>, BundleError> {
    match references_of(env, this) {
        Err(e) => Err(e),
        Ok(list) => match env.objc.dealloc_result(this, &env.mem) {
            Err(e) => Err(BundleError::ObjC(e)),
            Ok(_) => Ok(list),
        },
    }
}

/// `-dealloc`: removes the bundle object, whose count has to have reached
/// zero, and drops its references to its URL and its info dictionary.
pub fn dealloc(env: &mut Environment, this: id) -> (res: Result<DrainReport, BundleError>)
    requires
        old(env).wf(),
    ensures
        final(env).wf(),
        final(env).kept_but_objects(old(env)),
        final(env).mem.contents() == old(env).mem.contents(),
        match res {
            Ok(report) => {
                let dropped = dealloc_check(old(env), this).unwrap();
                let left = old(env).objc.objects().remove(this.addr);
                &&& dealloc_check(old(env), this) is Ok
                &&& final(env).objc.objects() == drained(left, dropped)
                &&& report.teardowns@ == teardowns_due(left, dropped)
                &&& report.misused@ == misused_members(left, dropped)
                &&& final(env).mem.records() == old(env).mem.records_after_free(this@)
            },
            Err(e) => {
                &&& dealloc_check(old(env), this) == Err::<Seq<id>, BundleError>(e)
                &&& final(env).objc.objects() == old(env).objc.objects()
                &&& final(env).mem.records() == old(env).mem.records()
            },
        },
{
    let dropped = references(env, this)?;
    match env.objc.dealloc_object(this, &mut env.mem) {
        Ok(_) => {},
        Err(e) => {
            return Err(BundleError::ObjC(e));
        },
    }
    Ok(env.objc.release_all(dropped.as_slice()))
}

} // verus!
