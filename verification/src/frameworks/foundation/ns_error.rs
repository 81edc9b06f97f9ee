//! `NSError`.
//!
//! An error holds a reference to its domain and to its user info. Taking and
//! dropping these references adjusts the counts directly; where dropping one
//! brings a count to zero, the object is reported for teardown.

use crate::environment::Environment;
use crate::frameworks::foundation::NSInteger;
use crate::frameworks::HostObject;
use crate::objc::{
    drained, id, misused_members, nil, retain_result, retained, teardowns_due, Class, DrainReport,
    ObjCError, ObjectEntry,
};
use vstd::prelude::*;

verus! {

/// The host side of an error.
#[derive(Clone, Copy, Debug)]
pub struct ErrorHostObject {
    pub domain: id,
    pub code: NSInteger,
    pub user_info: id,
}

/// Why a function on errors failed.
#[derive(Clone, Copy, Debug, PartialEq, Eq, Structural)]
pub enum ErrorError {
    /// The runtime refused the operation.
    ObjC(ObjCError),
    /// The object is no error.
    NotAnError,
}

/// The host side of an object, where the object is an error.
pub open spec fn error_of(env: &Environment, this: id) -> Result<ErrorHostObject, ErrorError> {
    if !env.objc.is_object(this) {
        Err(ErrorError::ObjC(ObjCError::NotFound))
    } else {
        match env.objc.objects()[this.addr].host_object {
            HostObject::Error(host_object) => Ok(host_object),
            _ => Err(ErrorError::NotAnError),
        }
    }
}

/// The objects among two that are not nil, in order.
pub open spec fn held(first: id, second: id) -> Seq<id> {
    (if first@ != 0 {
        seq![first]
    } else {
        Seq::<id>::empty()
    }) + (if second@ != 0 {
        seq![second]
    } else {
        Seq::<id>::empty()
    })
}

/// The host side of an object that has to be an error.
fn borrow_error(env: &Environment, this: id) -> (res: Result<ErrorHostObject, ErrorError>)
    ensures
        res == error_of(env, this),
{
    match env.objc.borrow(this) {
        Ok(host_object) => match host_object {
            HostObject::Error(e) => Ok(*e),
            _ => Err(ErrorError::NotAnError),
        },
        Err(e) => Err(ErrorError::ObjC(e)),
    }
}

/// The two objects that are not nil, in order.
fn held_list(first: id, second: id) -> (list: Vec<id>)
    ensures
        list@ == held(first, second),
{
    let mut list: Vec<id> = Vec::new();
    if !first.is_null() {
        list.push(first);
    }
    if !second.is_null() {
        list.push(second);
    }
    assert(list@ =~= held(first, second));
    list
}

/// `+allocWithZone:`: a new error without domain, code or user info.
pub fn alloc_with_zone(env: &mut Environment, this: Class) -> (res: Result<id, ObjCError>)
    requires
        old(env).wf(),
    ensures
        final(env).wf(),
        final(env).kept_but_objects(old(env)),
        res == old(env).objc.alloc_result(this, &old(env).mem),
        match res {
            Ok(obj) => final(env).objc.objects() == old(env).objc.objects().insert(
                obj.addr,
                ObjectEntry {
                    class: this,
                    refcount: 1,
                    host_object: HostObject::Error(
                        ErrorHostObject {
                            domain: crate::mem::Ptr { addr: 0, pointee: core::marker::PhantomData },
                            code: 0,
                            user_info: crate::mem::Ptr {
                                addr: 0,
                                pointee: core::marker::PhantomData,
                            },
                        },
                    ),
                },
            ) && final(env).mem.records() == old(env).mem.records().push(
                crate::mem::AllocRecord {
                    base: obj.addr,
                    size: crate::objc::INSTANCE_SIZE,
                    live: true,
                },
            ) && final(env).mem.contents().subrange(0, old(env).mem.brk()) == old(
                env,
            ).mem.contents(),
            Err(_) => *final(env) == *old(env),
        },
{
    let host_object = HostObject::Error(ErrorHostObject { domain: nil(), code: 0, user_info: nil() });
    env.objc.alloc_object(this, host_object, &mut env.mem)
}

/// What retaining an object that may be nil is answered with.
pub open spec fn retain_if_result(objects: Map<u32, ObjectEntry<HostObject>>, obj: id) -> Result<
    (),
    ObjCError,
> {
    if obj@ == 0 {
        Ok(())
    } else {
        retain_result(objects, obj.addr)
    }
}

/// The objects after an object that may be nil has been retained.
pub open spec fn retained_if(objects: Map<u32, ObjectEntry<HostObject>>, obj: id) -> Map<
    u32,
    ObjectEntry<HostObject>,
> {
    if obj@ == 0 {
        objects
    } else {
        retained(objects, obj.addr)
    }
}

/// What `-initWithDomain:code:userInfo:` is answered with.
pub open spec fn init_result(env: &Environment, this: id, domain: id, user_info: id) -> Result<
    id,
    ErrorError,
> {
    match error_of(env, this) {
        Err(e) => Err(e),
        Ok(_) => match retain_if_result(env.objc.objects(), domain) {
            Err(e) => Err(ErrorError::ObjC(e)),
            Ok(_) => match retain_if_result(retained_if(env.objc.objects(), domain), user_info) {
                Err(e) => Err(ErrorError::ObjC(e)),
                Ok(_) => Ok(this),
            },
        },
    }
}

/// Retains an object unless it is nil.
fn retain_if(env: &mut Environment, obj: id) -> (res: Result<(), ObjCError>)
    requires
        old(env).wf(),
    ensures
        final(env).wf(),
        final(env).kept_but_objects(old(env)),
        final(env).mem == old(env).mem,
        res == retain_if_result(old(env).objc.objects(), obj),
        res is Ok ==> final(env).objc.objects() == retained_if(old(env).objc.objects(), obj),
        res is Err ==> final(env).objc.objects() == old(env).objc.objects(),
{
    if obj.is_null() {
        Ok(())
    } else {
        env.objc.retain(obj)
    }
}

/// `-initWithDomain:code:userInfo:`: takes a reference to the domain and to
/// the user info, where they are not nil, and keeps the three values. Nothing
/// changes unless both references can be taken.
pub fn init_with_domain(
    env: &mut Environment,
    this: id,
    domain: id,
    code: NSInteger,
    user_info: id,
) -> (res: Result<id, ErrorError>)
    requires
        old(env).wf(),
    ensures
        final(env).wf(),
        final(env).kept_but_objects(old(env)),
        final(env).mem == old(env).mem,
        res == init_result(old(env), this, domain, user_info),
        res is Ok ==> {
            let taken = retained_if(retained_if(old(env).objc.objects(), domain), user_info);
            final(env).objc.objects() == taken.insert(
                this.addr,
                ObjectEntry {
                    class: taken[this.addr].class,
                    refcount: taken[this.addr].refcount,
                    host_object: HostObject::Error(ErrorHostObject { domain, code, user_info }),
                },
            )
        },
        res is Err ==> final(env).objc.objects() == old(env).objc.objects(),
{
    match borrow_error(env, this) {
        Ok(_) => {},
        Err(e) => {
            return Err(e);
        },
    }
    match retain_if(env, domain) {
        Ok(_) => {},
        Err(e) => {
            return Err(ErrorError::ObjC(e));
        },
    }
    match retain_if(env, user_info) {
        Ok(_) => {},
        Err(e) => {
            if !domain.is_null() {
                proof {
                    crate::objc::lemma_retain_then_release(old(env).objc.objects(), domain.addr);
                }
                let undone = env.objc.release(domain);
            }
            return Err(ErrorError::ObjC(e));
        },
    }
    let replaced = env.objc.replace_host_object(
        this,
        HostObject::Error(ErrorHostObject { domain, code, user_info }),
    );
    assert(replaced is Ok);
    Ok(this)
}

/// What the teardown of an error is answered with, apart from the report of
/// a success.
pub open spec fn dealloc_check(env: &Environment, this: id) -> Result<ErrorHostObject, ErrorError> {
    match error_of(env, this) {
        Err(e) => Err(e),
        Ok(host_object) => match env.objc.dealloc_result(this, &env.mem) {
            Err(e) => Err(ErrorError::ObjC(e)),
            Ok(_) => Ok(host_object),
        },
    }
}

/// `-dealloc`: removes the error, whose count has to have reached zero, and
/// drops its references to its domain and its user info.
pub fn dealloc(env: &mut Environment, this: id) -> (res: Result<DrainReport, ErrorError>)
    requires
        old(env).wf(),
    ensures
        final(env).wf(),
        final(env).kept_but_objects(old(env)),
        final(env).mem.contents() == old(env).mem.contents(),
        match res {
            Ok(report) => {
                let host_object = dealloc_check(old(env), this).unwrap();
                let left = old(env).objc.objects().remove(this.addr);
                let dropped = held(host_object.domain, host_object.user_info);
                &&& dealloc_check(old(env), this) is Ok
                &&& final(env).objc.objects() == drained(left, dropped)
                &&& report.teardowns@ == teardowns_due(left, dropped)
                &&& report.misused@ == misused_members(left, dropped)
                &&& final(env).mem.records() == old(env).mem.records_after_free(this@)
            },
            Err(e) => {
                &&& dealloc_check(old(env), this) == Err::<ErrorHostObject, ErrorError>(e)
                &&& final(env).objc.objects() == old(env).objc.objects()
                &&& final(env).mem.records() == old(env).mem.records()
            },
        },
{
    let host_object = borrow_error(env, this)?;
    match env.objc.dealloc_object(this, &mut env.mem) {
        Ok(_) => {},
        Err(e) => {
            return Err(ErrorError::ObjC(e));
        },
    }
    let dropped = held_list(host_object.domain, host_object.user_info);
    Ok(env.objc.release_all(dropped.as_slice()))
}

} // verus!
