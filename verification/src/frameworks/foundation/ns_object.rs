//! `NSObject`, the root of the class hierarchy: reference counting, the
//! questions an object answers about itself, and key-value coding.
//!
//! Where a method ends in a message to some other object, the function here
//! answers which message is to be sent, and sending it is up to the caller.

use crate::ascii::{COLON, GREATER, LESS, LOWER_A, LOWER_E, LOWER_S, LOWER_T, LOWER_X, LOWER_Z, SPACE,
    UNDERSCORE, ZERO, AT, LOWER_I};
use crate::bytes::push_bytes;
use crate::environment::Environment;
use crate::frameworks::foundation::NSUInteger;
use crate::frameworks::HostObject;
use crate::libc::stdio::text::{hex, push_hex};
use crate::mem::{ConstVoidPtr, Ptr};
use crate::objc::{
    id, release_result, released, retain_result, retained, Class, ObjCError, ObjectEntry, Protocol,
    IMP, SEL,
};
use vstd::prelude::*;

verus! {

/// `+allocWithZone:`: a new object of a class, with nothing on the host side.
pub fn alloc_with_zone(env: &mut Environment, this: Class) -> (res: Result<id, ObjCError>)
    requires
        old(env).wf(),
    ensures
        final(env).wf(),
        final(env).kept_but_objects(old(env)),
        res == old(env).objc.alloc_result(this, &old(env).mem),
        match res {
            Ok(obj) => final(env).objc.objects() == old(env).objc.objects().insert(
                obj.addr,
                ObjectEntry { class: this, refcount: 1, host_object: HostObject::Trivial },
            ) && final(env).mem.records() == old(env).mem.records().push(
                crate::mem::AllocRecord {
                    base: obj.addr,
                    size: crate::objc::INSTANCE_SIZE,
                    live: true,
                },
            ) && final(env).mem.contents().subrange(0, old(env).mem.brk()) == old(
                env,
            ).mem.contents(),
            Err(_) => *final(env) == *old(env),
        },
{
    env.objc.alloc_object(this, HostObject::Trivial, &mut env.mem)
}

/// `-retain`.
pub fn retain(env: &mut Environment, this: id) -> (res: Result<id, ObjCError>)
    requires
        old(env).wf(),
    ensures
        final(env).wf(),
        final(env).kept_but_objects(old(env)),
        final(env).mem == old(env).mem,
        final(env).objc.objects() == retained(old(env).objc.objects(), this.addr),
        match res {
            Ok(obj) => obj == this && retain_result(old(env).objc.objects(), this.addr) is Ok,
            Err(e) => retain_result(old(env).objc.objects(), this.addr) == Err::<(), ObjCError>(e),
        },
{
    match env.objc.retain(this) {
        Ok(_) => Ok(this),
        Err(e) => Err(e),
    }
}

/// `-release`. Answers whether the count has reached zero, so that `dealloc`
/// is to be sent to the object.
pub fn release(env: &mut Environment, this: id) -> (res: Result<bool, ObjCError>)
    requires
        old(env).wf(),
    ensures
        final(env).wf(),
        final(env).kept_but_objects(old(env)),
        final(env).mem == old(env).mem,
        final(env).objc.objects() == released(old(env).objc.objects(), this.addr),
        res == release_result(old(env).objc.objects(), this.addr),
{
    env.objc.release(this)
}

/// `-autorelease`.
pub fn autorelease(env: &mut Environment, this: id) -> (res: Result<id, ObjCError>)
    requires
        old(env).wf(),
    ensures
        final(env).wf(),
        final(env).kept_but_objc(old(env)),
        final(env).objc.selectors() == old(env).objc.selectors(),
        final(env).objc.classes() == old(env).objc.classes(),
        final(env).objc.objects() == old(env).objc.objects(),
        match res {
            Ok(obj) => obj == this && old(env).objc.autorelease_result(this) is Ok
                && final(env).objc.pools() == old(env).objc.pools().update(
                old(env).objc.pools().len() - 1,
                old(env).objc.pools().last().push(this),
            ),
            Err(e) => old(env).objc.autorelease_result(this) == Err::<(), ObjCError>(e)
                && final(env).objc.pools() == old(env).objc.pools(),
        },
{
    match env.objc.autorelease(this) {
        Ok(_) => Ok(this),
        Err(e) => Err(e),
    }
}

/// `-retainCount`.
pub fn retain_count(env: &Environment, this: id) -> (res: Result<NSUInteger, ObjCError>)
    ensures
        match res {
            Ok(count) => env.objc.is_object(this) && count
                == env.objc.objects()[this.addr].refcount,
            Err(e) => !env.objc.is_object(this) && e == ObjCError::NotFound,
        },
{
    env.objc.get_refcount(this)
}

/// `-dealloc`: removes the object, frees its guest memory and hands its host
/// side back. The object's count has to have reached zero.
pub fn dealloc(env: &mut Environment, this: id) -> (res: Result<HostObject, ObjCError>)
    requires
        old(env).wf(),
    ensures
        final(env).wf(),
        final(env).kept_but_objects(old(env)),
        final(env).mem.contents() == old(env).mem.contents(),
        match res {
            Ok(host_object) => {
                &&& old(env).objc.dealloc_result(this, &old(env).mem) is Ok
                &&& host_object == old(env).objc.objects()[this.addr].host_object
                &&& final(env).objc.objects() == old(env).objc.objects().remove(this.addr)
                &&& final(env).mem.records() == old(env).mem.records_after_free(this@)
            },
            Err(e) => {
                &&& old(env).objc.dealloc_result(this, &old(env).mem) == Err::<(), ObjCError>(e)
                &&& final(env).objc.objects() == old(env).objc.objects()
                &&& final(env).mem.records() == old(env).mem.records()
            },
        },
{
    env.objc.dealloc_object(this, &mut env.mem)
}

/// `-class`.
pub fn class(env: &Environment, this: id) -> (res: Result<Class, ObjCError>)
    ensures
        match res {
            Ok(class) => env.objc.is_object(this) && class == env.objc.objects()[this.addr].class,
            Err(e) => !env.objc.is_object(this) && e == ObjCError::NotFound,
        },
{
    env.objc.class_of(this)
}

/// `-isMemberOfClass:`.
pub fn is_member_of_class(env: &Environment, this: id, class: Class) -> (res: Result<
    bool,
    ObjCError,
>)
    ensures
        match res {
            Ok(b) => env.objc.is_object(this) && b == (env.objc.objects()[this.addr].class
                == class),
            Err(e) => !env.objc.is_object(this) && e == ObjCError::NotFound,
        },
{
    env.objc.is_member_of(this, class)
}

/// `-isKindOfClass:`.
pub fn is_kind_of_class(env: &Environment, this: id, class: Class) -> (res: Result<bool, ObjCError>)
    requires
        env.wf(),
    ensures
        match res {
            Ok(b) => env.objc.is_object(this) && b == env.objc.ancestors(
                env.objc.objects()[this.addr].class,
            ).contains(class),
            Err(e) => !env.objc.is_object(this) && e == ObjCError::NotFound,
        },
{
    env.objc.is_kind_of(this, class)
}

/// `-respondsToSelector:`.
pub fn responds_to_selector(env: &Environment, this: id, selector: SEL) -> (res: Result<
    bool,
    ObjCError,
>)
    requires
        env.wf(),
    ensures
        match res {
            Ok(b) => env.objc.is_object(this) && b == env.objc.method_for(
                env.objc.objects()[this.addr].class,
                selector,
                false,
            ).is_some(),
            Err(e) => !env.objc.is_object(this) && e == ObjCError::NotFound,
        },
{
    env.objc.responds_to(this, selector)
}

/// `-conformsToProtocol:`.
pub fn conforms_to_protocol(env: &Environment, this: id, protocol: Protocol) -> (res: Result<
    bool,
    ObjCError,
>)
    requires
        env.wf(),
    ensures
        match res {
            Ok(b) => env.objc.is_object(this) && b == crate::objc::conforms(
                env.objc.classes(),
                env.objc.objects()[this.addr].class,
                protocol,
            ),
            Err(e) => !env.objc.is_object(this) && e == ObjCError::NotFound,
        },
{
    match env.objc.class_of(this) {
        Ok(class) => Ok(env.objc.class_conforms_to_protocol(class, protocol)),
        Err(e) => Err(e),
    }
}

/// `-hash`: the object's address.
pub fn hash(this: id) -> (res: NSUInteger)
    ensures
        res == this@,
{
    this.to_bits()
}

/// `-isEqual:`: whether the two are one object.
pub fn is_equal(this: id, other: id) -> (res: bool)
    ensures
        res == (this@ == other@),
{
    this.same(other)
}

/// What `-description` writes for an object of a class of some name at some
/// address: `<Name: 0x…>`, the address in lower-case hexadecimal.
pub open spec fn description_text(name: Seq<u8>, addr: nat) -> Seq<u8> {
    seq![LESS] + name + seq![COLON, SPACE, ZERO, LOWER_X] + hex(addr, false) + seq![GREATER]
}

/// `-description`, as text.
pub fn description(env: &Environment, this: id) -> (res: Result<Vec<u8>, ObjCError>)
    requires
        env.wf(),
    ensures
        match res {
            Ok(text) => env.objc.is_object(this) && text@ == description_text(
                env.objc.classes()[env.objc.objects()[this.addr].class.index as int].name@,
                this@ as nat,
            ),
            Err(e) => !env.objc.is_object(this) && e == ObjCError::NotFound,
        },
{
    let class = env.objc.class_of(this)?;
    proof {
        env.objc.lemma_class_of_object(this);
    }
    let name = match env.objc.get_class_name(class) {
        Some(name) => name,
        None => {
            return Err(ObjCError::NotFound);
        },
    };
    let mut out: Vec<u8> = Vec::new();
    out.push(LESS);
    push_bytes(&mut out, name);
    out.push(COLON);
    out.push(SPACE);
    out.push(ZERO);
    out.push(LOWER_X);
    push_hex(&mut out, this.to_bits(), false);
    out.push(GREATER);
    assert(out@ =~= description_text(name@, this@ as nat));
    Ok(out)
}

/// Why key-value coding could not name a message.
#[derive(Clone, Copy, Debug, PartialEq, Eq, Structural)]
pub enum KvcError {
    /// The key is empty or holds a byte beyond ASCII.
    InvalidKey,
    /// The runtime refused to find the object.
    ObjC(ObjCError),
    /// The object has no accessor for the key.
    UnhandledKey,
    /// The accessor returns a type that cannot be boxed.
    UnsupportedType,
    /// The method is a host function and has no address in guest code.
    HostMethod,
}

/// A letter in upper case; any other byte as it is.
pub open spec fn upper(c: u8) -> u8 {
    if LOWER_A <= c <= LOWER_Z {
        (c - 32) as u8
    } else {
        c
    }
}

/// Whether every byte of a key is ASCII.
pub open spec fn is_ascii(key: Seq<u8>) -> bool {
    forall|i: int| 0 <= i < key.len() ==> #[trigger] key[i] < 128
}

/// The name of the setter for a key: `set`, the key with its first letter
/// in upper case, and a colon; with an underscore in front for the private
/// form.
pub open spec fn setter_name(key: Seq<u8>, private: bool) -> Seq<u8> {
    (if private {
        seq![UNDERSCORE]
    } else {
        Seq::<u8>::empty()
    }) + seq![LOWER_S, LOWER_E, LOWER_T, upper(key[0])] + key.subrange(1, key.len() as int)
        + seq![COLON]
}

/// The name of the setter for a key.
pub fn make_setter_name(key: &[u8], private: bool) -> (name: Vec<u8>)
    requires
        key@.len() > 0,
    ensures
        name@ == setter_name(key@, private),
{
    let mut out: Vec<u8> = Vec::new();
    if private {
        out.push(UNDERSCORE);
    }
    out.push(LOWER_S);
    out.push(LOWER_E);
    out.push(LOWER_T);
    let first = key[0];
    out.push(
        if LOWER_A <= first && first <= LOWER_Z {
            first - 32
        } else {
            first
        },
    );
    push_bytes(&mut out, vstd::slice::slice_subrange(key, 1, key.len()));
    out.push(COLON);
    assert(out@ =~= setter_name(key@, private));
    out
}

/// Whether every byte of a key is ASCII.
pub fn key_is_ascii(key: &[u8]) -> (res: bool)
    ensures
        res == is_ascii(key@),
{
    let mut i: usize = 0;
    while i < key.len()
        invariant
            i <= key@.len(),
            forall|k: int| 0 <= k < i ==> #[trigger] key@[k] < 128,
        decreases key@.len() - i,
    {
        if key[i] >= 128 {
            return false;
        }
        i += 1;
    }
    true
}

/// The selector of a name, where it is interned and instances of the class
/// have a method for it.
pub open spec fn usable_selector(env: &Environment, class: Class, name: Seq<u8>) -> Option<SEL> {
    match env.objc.selector_for(name) {
        Some(sel) => if env.objc.method_for(class, sel, false) is Some {
            Some(sel)
        } else {
            None
        },
        None => None,
    }
}

/// The message that sets the value for a key: the setter, else the private
/// setter.
pub open spec fn setter_for(env: &Environment, this: id, key: Seq<u8>) -> Result<SEL, KvcError> {
    if key.len() == 0 || !is_ascii(key) {
        Err(KvcError::InvalidKey)
    } else if !env.objc.is_object(this) {
        Err(KvcError::ObjC(ObjCError::NotFound))
    } else {
        let class = env.objc.objects()[this.addr].class;
        match usable_selector(env, class, setter_name(key, false)) {
            Some(sel) => Ok(sel),
            None => match usable_selector(env, class, setter_name(key, true)) {
                Some(sel) => Ok(sel),
                None => Err(KvcError::UnhandledKey),
            },
        }
    }
}

/// The selector of a name, where instances of the class can be sent it.
fn find_usable(env: &Environment, class: Class, name: &[u8]) -> (res: Option<SEL>)
    requires
        env.wf(),
    ensures
        res == usable_selector(env, class, name@),
{
    match env.objc.lookup_selector(name) {
        Some(sel) => if env.objc.class_has_method(class, sel) {
            Some(sel)
        } else {
            None
        },
        None => None,
    }
}

/// `-setValue:forKey:`: answers the selector of the message that is to be
/// sent to the object, with the value for its argument.
pub fn set_value_for_key(env: &Environment, this: id, key: &[u8]) -> (res: Result<SEL, KvcError>)
    requires
        env.wf(),
    ensures
        res == setter_for(env, this, key@),
{
    if key.len() == 0 || !key_is_ascii(key) {
        return Err(KvcError::InvalidKey);
    }
    let class = match env.objc.class_of(this) {
        Ok(class) => class,
        Err(e) => {
            return Err(KvcError::ObjC(e));
        },
    };
    let public = make_setter_name(key, false);
    if let Some(sel) = find_usable(env, class, public.as_slice()) {
        return Ok(sel);
    }
    let private = make_setter_name(key, true);
    if let Some(sel) = find_usable(env, class, private.as_slice()) {
        return Ok(sel);
    }
    Err(KvcError::UnhandledKey)
}

/// What a getter returns.
#[derive(Clone, Copy, Debug, PartialEq, Eq, Structural)]
pub enum ValueKind {
    /// An object, which is the value.
    Object,
    /// An `int`, which is to be boxed in a number object.
    Int,
}

/// The message that gets the value for a key: the one named as the key is,
/// with what it returns.
pub open spec fn getter_for(env: &Environment, this: id, key: Seq<u8>) -> Result<
    (SEL, ValueKind),
    KvcError,
> {
    if !env.objc.is_object(this) {
        Err(KvcError::ObjC(ObjCError::NotFound))
    } else {
        match env.objc.selector_for(key) {
            None => Err(KvcError::UnhandledKey),
            Some(sel) => match env.objc.method_for(
                env.objc.objects()[this.addr].class,
                sel,
                false,
            ) {
                None => Err(KvcError::UnhandledKey),
                Some(m) => if m.return_type == AT {
                    Ok((sel, ValueKind::Object))
                } else if m.return_type == LOWER_I {
                    Ok((sel, ValueKind::Int))
                } else {
                    Err(KvcError::UnsupportedType)
                },
            },
        }
    }
}

/// `-valueForKey:`: answers the selector of the message that is to be sent
/// to the object, and what to do with the value it returns.
pub fn value_for_key(env: &Environment, this: id, key: &[u8]) -> (res: Result<
    (SEL, ValueKind),
    KvcError,
>)
    requires
        env.wf(),
    ensures
        res == getter_for(env, this, key@),
{
    let class = match env.objc.class_of(this) {
        Ok(class) => class,
        Err(e) => {
            return Err(KvcError::ObjC(e));
        },
    };
    let sel = match env.objc.lookup_selector(key) {
        Some(sel) => sel,
        None => {
            return Err(KvcError::UnhandledKey);
        },
    };
    match env.objc.lookup_method(class, sel, false) {
        None => Err(KvcError::UnhandledKey),
        Some(m) => if m.return_type == AT {
            Ok((sel, ValueKind::Object))
        } else if m.return_type == LOWER_I {
            Ok((sel, ValueKind::Int))
        } else {
            Err(KvcError::UnsupportedType)
        },
    }
}

/// The address in guest code of the method that a selector resolves to from
/// a class on.
pub open spec fn method_address(env: &Environment, class: Class, selector: SEL) -> Result<
    ConstVoidPtr,
    KvcError,
> {
    match env.objc.method_for(class, selector, false) {
        None => Err(KvcError::ObjC(ObjCError::DoesNotUnderstand)),
        Some(m) => match m.imp {
            IMP::Guest(g) => Ok(Ptr { addr: g.addr, pointee: core::marker::PhantomData }),
            IMP::Host(_) => Err(KvcError::HostMethod),
        },
    }
}

/// `+instanceMethodForSelector:`.
pub fn instance_method_for_selector(env: &Environment, this: Class, selector: SEL) -> (res: Result<
    ConstVoidPtr,
    KvcError,
>)
    requires
        env.wf(),
    ensures
        res == method_address(env, this, selector),
{
    match env.objc.lookup_method(this, selector, false) {
        None => Err(KvcError::ObjC(ObjCError::DoesNotUnderstand)),
        Some(m) => match m.imp {
            IMP::Guest(g) => Ok(Ptr::from_bits(g.addr_with_thumb_bit())),
            IMP::Host(_) => Err(KvcError::HostMethod),
        },
    }
}

/// `-methodForSelector:`.
pub fn method_for_selector(env: &Environment, this: id, selector: SEL) -> (res: Result<
    ConstVoidPtr,
    KvcError,
>)
    requires
        env.wf(),
    ensures
        res == if !env.objc.is_object(this) {
            Err::<ConstVoidPtr, KvcError>(KvcError::ObjC(ObjCError::NotFound))
        } else {
            method_address(env, env.objc.objects()[this.addr].class, selector)
        },
{
    match env.objc.class_of(this) {
        Ok(class) => instance_method_for_selector(env, class, selector),
        Err(e) => Err(KvcError::ObjC(e)),
    }
}

/// `+instancesRespondToSelector:`.
pub fn instances_respond_to_selector(env: &Environment, this: Class, selector: SEL) -> (res: bool)
    requires
        env.wf(),
    ensures
        res == env.objc.method_for(this, selector, false).is_some(),
{
    env.objc.class_has_method(this, selector)
}

} // verus!
