use touchhle::abi::GuestFunction;
use touchhle::mem::{Mem, MemError, Ptr};
use touchhle::objc::{
    adopts, find_in_table, id, nil, Class, ClassDescriptor, ClassTemplate, Method, MethodTemplate,
    ObjC, ObjCError, Protocol, IMP, SEL,
};

fn class(name: &[u8], superclass: Option<Class>, methods: Vec<Method>) -> ClassDescriptor {
    ClassDescriptor {
        name: name.to_vec(),
        superclass,
        instance_methods: methods,
        class_methods: Vec::new(),
        protocols: Vec::new(),
    }
}

fn method(selector: SEL, number: u32) -> Method {
    Method { selector, imp: IMP::Host(number), return_type: b'@' }
}

struct World {
    mem: Mem,
    objc: ObjC<&'static str>,
    base: Class,
    widget: Class,
    other: Class,
    draw: SEL,
    size: SEL,
}

fn world() -> World {
    let mem = Mem::new();
    let mut objc: ObjC<&'static str> = ObjC::new();
    let draw = objc.register_selector(b"draw");
    let size = objc.register_selector(b"size");
    let base = objc
        .register_class(class(b"Base", None, vec![method(draw, 1), method(size, 2)]))
        .unwrap();
    let widget = objc.register_class(class(b"Widget", Some(base), vec![method(draw, 3)])).unwrap();
    let other = objc.register_class(class(b"Other", Some(base), Vec::new())).unwrap();
    World { mem, objc, base, widget, other, draw, size }
}

#[test]
fn widget_lives_until_its_last_release() {
    let mut w = world();
    let obj = w.objc.alloc_object(w.widget, "payload", &mut w.mem).unwrap();
    assert_eq!(w.objc.get_refcount(obj), Ok(1));
    assert_eq!(w.objc.retain(obj), Ok(()));
    assert_eq!(w.objc.get_refcount(obj), Ok(2));
    assert_eq!(w.objc.release(obj), Ok(false));
    assert_eq!(w.objc.get_refcount(obj), Ok(1));
    assert_eq!(w.objc.class_of(obj), Ok(w.widget));
    assert_eq!(w.objc.release(obj), Ok(true));
    assert_eq!(w.objc.get_refcount(obj), Ok(0));
    assert_eq!(w.objc.dealloc_object(obj, &mut w.mem), Ok("payload"));
    assert_eq!(w.objc.get_refcount(obj), Err(ObjCError::NotFound));
    assert_eq!(w.objc.class_of(obj), Err(ObjCError::NotFound));
    assert_eq!(w.objc.resolve(obj, w.draw), Err(ObjCError::NotFound));
    assert_eq!(w.objc.dealloc_object(obj, &mut w.mem), Err(ObjCError::NotFound));
    assert_eq!(w.mem.read(obj.cast::<u32>()), Err(MemError::UseAfterFree));
}

#[test]
fn retain_then_release_leaves_the_count() {
    let mut w = world();
    let obj = w.objc.alloc_object(w.base, "x", &mut w.mem).unwrap();
    for _ in 0..3 {
        let before = w.objc.get_refcount(obj).unwrap();
        w.objc.retain(obj).unwrap();
        assert_eq!(w.objc.release(obj), Ok(false));
        assert_eq!(w.objc.get_refcount(obj), Ok(before));
        w.objc.retain(obj).unwrap();
    }
    assert_eq!(w.objc.get_refcount(obj), Ok(4));
}

#[test]
fn release_past_zero_is_reported() {
    let mut w = world();
    let obj = w.objc.alloc_object(w.base, "x", &mut w.mem).unwrap();
    assert_eq!(w.objc.release(obj), Ok(true));
    assert_eq!(w.objc.release(obj), Err(ObjCError::OverRelease));
    assert_eq!(w.objc.get_refcount(obj), Ok(0));
    assert_eq!(w.objc.retain(obj), Err(ObjCError::Deallocating));
    assert_eq!(w.objc.get_refcount(obj), Ok(0));
}

#[test]
fn unknown_objects_are_not_found() {
    let mut w = world();
    let stranger: id = Ptr::from_bits(0x5000);
    assert_eq!(w.objc.retain(stranger), Err(ObjCError::NotFound));
    assert_eq!(w.objc.release(stranger), Err(ObjCError::NotFound));
    assert_eq!(w.objc.retain(nil()), Err(ObjCError::NotFound));
    assert_eq!(w.objc.borrow(stranger).map(|h| *h), Err(ObjCError::NotFound));
    assert_eq!(w.objc.is_kind_of(stranger, w.base), Err(ObjCError::NotFound));
    assert_eq!(w.objc.is_member_of(stranger, w.base), Err(ObjCError::NotFound));
    assert_eq!(w.objc.responds_to(stranger, w.draw), Err(ObjCError::NotFound));
}

#[test]
fn referenced_object_cannot_be_torn_down() {
    let mut w = world();
    let obj = w.objc.alloc_object(w.base, "x", &mut w.mem).unwrap();
    assert_eq!(w.objc.dealloc_object(obj, &mut w.mem), Err(ObjCError::StillReferenced));
    assert_eq!(w.objc.get_refcount(obj), Ok(1));
    assert_eq!(w.mem.check_access(obj.to_bits(), 4), Ok(()));
}

#[test]
fn teardown_reports_memory_that_is_already_freed() {
    let mut w = world();
    let obj = w.objc.alloc_object(w.base, "x", &mut w.mem).unwrap();
    w.objc.release(obj).unwrap();
    w.mem.free(obj.cast()).unwrap();
    assert_eq!(
        w.objc.dealloc_object(obj, &mut w.mem),
        Err(ObjCError::Mem(MemError::DoubleFree))
    );
    assert_eq!(w.objc.get_refcount(obj), Ok(0));
}

#[test]
fn objects_get_distinct_addresses_and_counts() {
    let mut w = world();
    let a = w.objc.alloc_object(w.base, "a", &mut w.mem).unwrap();
    let b = w.objc.alloc_object(w.widget, "b", &mut w.mem).unwrap();
    assert!(a.to_bits() != b.to_bits());
    assert!(!a.is_null());
    w.objc.retain(a).unwrap();
    assert_eq!(w.objc.get_refcount(a), Ok(2));
    assert_eq!(w.objc.get_refcount(b), Ok(1));
    assert_eq!(w.objc.borrow(a).map(|h| *h), Ok("a"));
    assert_eq!(w.objc.replace_host_object(b, "c"), Ok("b"));
    assert_eq!(w.objc.borrow(b).map(|h| *h), Ok("c"));
    assert_eq!(w.objc.get_refcount(b), Ok(1));
    assert_eq!(w.objc.class_of(b), Ok(w.widget));
}

#[test]
fn object_of_unknown_class_is_refused() {
    let mut w = world();
    let next = w.mem.next_address();
    assert_eq!(
        w.objc.alloc_object(Class { index: 99 }, "x", &mut w.mem).map(|o| o.to_bits()),
        Err(ObjCError::UnknownClass)
    );
    assert_eq!(w.mem.next_address(), next);
}

#[test]
fn every_object_is_kind_of_root_and_of_its_chain_only() {
    let mut w = world();
    let widget = w.objc.alloc_object(w.widget, "w", &mut w.mem).unwrap();
    let base = w.objc.alloc_object(w.base, "b", &mut w.mem).unwrap();
    assert_eq!(w.objc.is_kind_of(widget, w.base), Ok(true));
    assert_eq!(w.objc.is_kind_of(widget, w.widget), Ok(true));
    assert_eq!(w.objc.is_kind_of(widget, w.other), Ok(false));
    assert_eq!(w.objc.is_kind_of(base, w.base), Ok(true));
    assert_eq!(w.objc.is_kind_of(base, w.widget), Ok(false));
    assert_eq!(w.objc.is_kind_of(widget, Class { index: 99 }), Ok(false));
    assert_eq!(w.objc.is_member_of(widget, w.widget), Ok(true));
    assert_eq!(w.objc.is_member_of(widget, w.base), Ok(false));
    assert!(w.objc.class_is_subclass_of(w.other, w.base));
    assert!(!w.objc.class_is_subclass_of(w.base, w.other));
    assert_eq!(w.objc.superclass(w.widget), Some(w.base));
    assert_eq!(w.objc.superclass(w.base), None);
    assert_eq!(w.base, Class { index: 0 });
}

#[test]
fn message_resolves_to_the_most_derived_method() {
    let mut w = world();
    let widget = w.objc.alloc_object(w.widget, "w", &mut w.mem).unwrap();
    let base = w.objc.alloc_object(w.base, "b", &mut w.mem).unwrap();
    let other = w.objc.alloc_object(w.other, "o", &mut w.mem).unwrap();
    assert_eq!(w.objc.resolve(widget, w.draw).map(|m| m.imp), Ok(IMP::Host(3)));
    assert_eq!(w.objc.resolve(base, w.draw).map(|m| m.imp), Ok(IMP::Host(1)));
    assert_eq!(w.objc.resolve(other, w.draw).map(|m| m.imp), Ok(IMP::Host(1)));
    assert_eq!(w.objc.resolve(widget, w.size).map(|m| m.imp), Ok(IMP::Host(2)));
    let unknown = w.objc.register_selector(b"fly");
    assert_eq!(w.objc.resolve(widget, unknown), Err(ObjCError::DoesNotUnderstand));
    assert_eq!(w.objc.responds_to(widget, unknown), Ok(false));
    assert_eq!(w.objc.responds_to(widget, w.size), Ok(true));
    assert!(w.objc.class_has_method(w.other, w.draw));
    assert!(!w.objc.class_has_method(w.other, unknown));
}

#[test]
fn first_entry_of_a_table_wins() {
    let s = SEL { index: 4 };
    let table = vec![method(SEL { index: 1 }, 10), method(s, 11), method(s, 12)];
    assert_eq!(find_in_table(&table, s).map(|m| m.imp), Some(IMP::Host(11)));
    assert_eq!(find_in_table(&table, SEL { index: 9 }), None);
    assert_eq!(find_in_table(&[], s), None);
}

#[test]
fn class_messages_resolve_along_the_class_side() {
    let mut objc: ObjC<u8> = ObjC::new();
    let alloc = objc.register_selector(b"alloc");
    let make = objc.register_selector(b"make");
    let mut root = class(b"Root", None, vec![method(make, 1)]);
    root.class_methods = vec![Method {
        selector: alloc,
        imp: IMP::Guest(GuestFunction::from_addr_with_thumb_bit(0x9001)),
        return_type: b'@',
    }];
    let root = objc.register_class(root).unwrap();
    let leaf = objc.register_class(class(b"Leaf", Some(root), Vec::new())).unwrap();
    assert_eq!(
        objc.resolve_class_message(leaf, alloc).map(|m| m.imp),
        Ok(IMP::Guest(GuestFunction::from_addr_with_thumb_bit(0x9001)))
    );
    assert_eq!(objc.resolve_class_message(leaf, make), Err(ObjCError::DoesNotUnderstand));
    assert_eq!(
        objc.resolve_class_message(Class { index: 7 }, alloc),
        Err(ObjCError::UnknownClass)
    );
    assert_eq!(objc.lookup_method(leaf, make, false).map(|m| m.imp), Some(IMP::Host(1)));
    assert_eq!(objc.lookup_method(leaf, make, true), None);
}

#[test]
fn classes_are_registered_under_one_root_with_unique_names() {
    let mut objc: ObjC<u8> = ObjC::new();
    assert_eq!(
        objc.register_class(class(b"Early", Some(Class { index: 0 }), Vec::new())),
        Err(ObjCError::UnknownClass)
    );
    let root = objc.register_class(class(b"Root", None, Vec::new())).unwrap();
    assert_eq!(root, Class { index: 0 });
    assert_eq!(
        objc.register_class(class(b"Second", None, Vec::new())),
        Err(ObjCError::SecondRoot)
    );
    assert_eq!(
        objc.register_class(class(b"Root", Some(root), Vec::new())),
        Err(ObjCError::DuplicateClass)
    );
    assert_eq!(
        objc.register_class(class(b"Leaf", Some(Class { index: 1 }), Vec::new())),
        Err(ObjCError::UnknownClass)
    );
    let leaf = objc.register_class(class(b"Leaf", Some(root), Vec::new())).unwrap();
    assert_eq!(leaf, Class { index: 1 });
    assert_eq!(objc.get_known_class(b"Leaf"), Some(leaf));
    assert_eq!(objc.get_known_class(b"Lea"), None);
    assert_eq!(objc.get_class_name(leaf), Some(&b"Leaf"[..]));
    assert_eq!(objc.get_class_name(Class { index: 2 }), None);
}

#[test]
fn selectors_are_interned_once() {
    let mut objc: ObjC<u8> = ObjC::new();
    assert_eq!(objc.lookup_selector(b"init"), None);
    let init = objc.register_selector(b"init");
    let copy = objc.register_selector(b"copy");
    assert!(init != copy);
    assert_eq!(objc.register_selector(b"init"), init);
    assert_eq!(objc.lookup_selector(b"copy"), Some(copy));
    assert_eq!(objc.selector_name(copy), Some(&b"copy"[..]));
    assert_eq!(objc.selector_name(SEL { index: 5 }), None);
}

#[test]
fn protocols_are_inherited() {
    let mut objc: ObjC<u8> = ObjC::new();
    let copying = Protocol { tag: 1 };
    let coding = Protocol { tag: 2 };
    let mut root = class(b"Root", None, Vec::new());
    root.protocols = vec![copying];
    let root = objc.register_class(root).unwrap();
    let mut leaf = class(b"Leaf", Some(root), Vec::new());
    leaf.protocols = vec![coding];
    let leaf = objc.register_class(leaf).unwrap();
    assert!(objc.class_conforms_to_protocol(leaf, copying));
    assert!(objc.class_conforms_to_protocol(leaf, coding));
    assert!(objc.class_conforms_to_protocol(root, copying));
    assert!(!objc.class_conforms_to_protocol(root, coding));
    assert!(!objc.class_conforms_to_protocol(Class { index: 5 }, coding));
    assert!(adopts(&[copying, coding], coding));
    assert!(!adopts(&[copying], coding));
}

#[test]
fn pools_drain_innermost_first() {
    let mut w = world();
    let a = w.objc.alloc_object(w.base, "a", &mut w.mem).unwrap();
    let b = w.objc.alloc_object(w.base, "b", &mut w.mem).unwrap();
    let c = w.objc.alloc_object(w.base, "c", &mut w.mem).unwrap();
    w.objc.retain(b).unwrap();
    let outer_pool = w.objc.push_pool();
    assert_eq!(w.objc.autorelease(a), Ok(()));
    let inner_pool = w.objc.push_pool();
    assert_eq!((outer_pool, inner_pool), (0, 1));
    assert_eq!(w.objc.autorelease(b), Ok(()));
    assert_eq!(w.objc.autorelease(c), Ok(()));
    // The outer pool cannot be drained while the inner one is in place.
    assert_eq!(w.objc.drain_pool(outer_pool).map(|r| r.teardowns.len()), Err(ObjCError::NotTopPool));
    assert_eq!(w.objc.get_refcount(a), Ok(1));
    assert_eq!(w.objc.get_refcount(c), Ok(1));
    let inner = w.objc.drain_pool(inner_pool).unwrap();
    assert_eq!(inner.teardowns.iter().map(|o| o.to_bits()).collect::<Vec<_>>(), vec![c.to_bits()]);
    assert!(inner.misused.is_empty());
    assert_eq!(w.objc.get_refcount(a), Ok(1));
    assert_eq!(w.objc.get_refcount(b), Ok(1));
    assert_eq!(w.objc.get_refcount(c), Ok(0));
    assert_eq!(w.objc.drain_pool(inner_pool).map(|r| r.teardowns.len()), Err(ObjCError::NotTopPool));
    let outer = w.objc.drain_pool(outer_pool).unwrap();
    assert_eq!(outer.teardowns.iter().map(|o| o.to_bits()).collect::<Vec<_>>(), vec![a.to_bits()]);
    assert_eq!(w.objc.get_refcount(b), Ok(1));
    assert_eq!(w.objc.drain_pool(0).map(|r| r.teardowns.len()), Err(ObjCError::NotTopPool));
}

#[test]
fn pool_releases_each_registration_once_in_order() {
    let mut w = world();
    let a = w.objc.alloc_object(w.base, "a", &mut w.mem).unwrap();
    let b = w.objc.alloc_object(w.base, "b", &mut w.mem).unwrap();
    w.objc.retain(a).unwrap();
    let pool = w.objc.push_pool();
    w.objc.autorelease(b).unwrap();
    w.objc.autorelease(a).unwrap();
    w.objc.autorelease(a).unwrap();
    w.objc.autorelease(a).unwrap();
    let report = w.objc.drain_pool(pool).unwrap();
    assert_eq!(
        report.teardowns.iter().map(|o| o.to_bits()).collect::<Vec<_>>(),
        vec![b.to_bits(), a.to_bits()]
    );
    assert_eq!(report.misused.iter().map(|o| o.to_bits()).collect::<Vec<_>>(), vec![a.to_bits()]);
    assert_eq!(w.objc.get_refcount(a), Ok(0));
}

#[test]
fn autorelease_needs_a_pool_and_an_object() {
    let mut w = world();
    let a = w.objc.alloc_object(w.base, "a", &mut w.mem).unwrap();
    assert_eq!(w.objc.autorelease(a), Err(ObjCError::NoPool));
    w.objc.push_pool();
    assert_eq!(w.objc.autorelease(Ptr::from_bits(0x9000)), Err(ObjCError::NotFound));
    assert_eq!(w.objc.drain_pool(0).map(|r| r.teardowns.len()), Ok(0));
}

fn template(name: &[u8], superclass: Option<&[u8]>, instance: &[(&[u8], u32)], class: &[(&[u8], u32)]) -> ClassTemplate {
    let methods = |list: &[(&[u8], u32)]| {
        list.iter()
            .map(|(selector, number)| MethodTemplate {
                selector: selector.to_vec(),
                imp: IMP::Host(*number),
                return_type: b'v',
            })
            .collect::<Vec<_>>()
    };
    ClassTemplate {
        name: name.to_vec(),
        superclass: superclass.map(|s| s.to_vec()),
        instance_methods: methods(instance),
        class_methods: methods(class),
        protocols: vec![Protocol { tag: 3 }],
    }
}

#[test]
fn class_templates_are_linked_by_name() {
    let mut objc: ObjC<u8> = ObjC::new();
    let known = objc.register_selector(b"init");
    let root = objc
        .link_class(&template(b"Root", None, &[(b"init", 1), (b"draw", 2)], &[(b"alloc", 3)]))
        .unwrap();
    assert_eq!(root, Class { index: 0 });
    let draw = objc.lookup_selector(b"draw").unwrap();
    let alloc = objc.lookup_selector(b"alloc").unwrap();
    assert_eq!(objc.lookup_selector(b"init"), Some(known));
    assert_eq!((known, draw, alloc), (SEL { index: 0 }, SEL { index: 1 }, SEL { index: 2 }));
    let leaf = objc
        .link_class(&template(b"Leaf", Some(b"Root"), &[(b"draw", 4), (b"draw", 5)], &[]))
        .unwrap();
    assert_eq!(objc.superclass(leaf), Some(root));
    assert_eq!(objc.lookup_method(leaf, draw, false).map(|m| m.imp), Some(IMP::Host(4)));
    assert_eq!(objc.lookup_method(leaf, known, false).map(|m| m.imp), Some(IMP::Host(1)));
    assert_eq!(objc.lookup_method(leaf, alloc, true).map(|m| m.imp), Some(IMP::Host(3)));
    assert_eq!(objc.lookup_method(leaf, alloc, false), None);
    assert!(objc.class_conforms_to_protocol(leaf, Protocol { tag: 3 }));
    assert_eq!(objc.lookup_selector(b"fly"), None);
}

#[test]
fn class_template_that_cannot_be_registered_changes_nothing() {
    let mut objc: ObjC<u8> = ObjC::new();
    assert_eq!(
        objc.link_class(&template(b"Leaf", Some(b"Root"), &[(b"fly", 1)], &[])),
        Err(ObjCError::UnknownClass)
    );
    objc.link_class(&template(b"Root", None, &[], &[])).unwrap();
    assert_eq!(
        objc.link_class(&template(b"Root", Some(b"Root"), &[(b"fly", 1)], &[])),
        Err(ObjCError::DuplicateClass)
    );
    assert_eq!(
        objc.link_class(&template(b"Other", None, &[(b"fly", 1)], &[])),
        Err(ObjCError::SecondRoot)
    );
    assert_eq!(
        objc.link_class(&template(b"Leaf", Some(b"Missing"), &[(b"fly", 1)], &[])),
        Err(ObjCError::UnknownClass)
    );
    assert_eq!(objc.lookup_selector(b"fly"), None);
    assert_eq!(objc.get_known_class(b"Leaf"), None);
}

#[test]
fn released_members_are_reported_in_order() {
    let mut w = world();
    let a = w.objc.alloc_object(w.base, "a", &mut w.mem).unwrap();
    let b = w.objc.alloc_object(w.base, "b", &mut w.mem).unwrap();
    w.objc.retain(a).unwrap();
    let stranger: id = Ptr::from_bits(0x7770);
    let report = w.objc.release_all(&[a, stranger, b, a, a]);
    assert_eq!(
        report.teardowns.iter().map(|o| o.to_bits()).collect::<Vec<_>>(),
        vec![b.to_bits(), a.to_bits()]
    );
    assert_eq!(
        report.misused.iter().map(|o| o.to_bits()).collect::<Vec<_>>(),
        vec![stranger.to_bits(), a.to_bits()]
    );
}
