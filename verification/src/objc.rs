//! The object runtime: classes, selectors, message resolution, reference
//! counting and autorelease pools, all kept in host storage.
//!
//! Classes live in an arena and are named by their index in it. A class is
//! always registered after its superclass, so walking towards the root is a
//! walk towards smaller indices, and the first class registered is the one
//! root of the hierarchy. Descriptors never change once registered.
#![allow(non_camel_case_types)]

use crate::abi::GuestFunction;
use crate::bytes::bytes_eq;
use crate::mem::{Mem, MemError, MutPtr, Ptr};
use std::collections::HashMap;
use vstd::prelude::*;

verus! {

broadcast use vstd::std_specs::hash::group_hash_axioms;

/// Pointee type of object pointers.
#[derive(Clone, Copy, Debug)]
pub struct ObjcObject {}

/// A guest object: the address that guest code knows it by.
pub type id = MutPtr<ObjcObject>;

/// The null object.
pub fn nil() -> (obj: id)
    ensures
        obj@ == 0,
{
    Ptr::null()
}

/// Number of guest bytes set aside for each object.
pub const INSTANCE_SIZE: u32 = 4;

/// Handle of a class: its index in the arena.
#[derive(Clone, Copy, Debug, PartialEq, Eq, Structural)]
pub struct Class {
    pub index: usize,
}

/// Handle of an interned selector.
#[derive(Clone, Copy, Debug, PartialEq, Eq, Structural)]
pub struct SEL {
    pub index: usize,
}

/// A protocol, as a capability tag.
#[derive(Clone, Copy, Debug, PartialEq, Eq, Structural)]
pub struct Protocol {
    pub tag: u32,
}

/// What runs when a method is invoked: a host function, named by its number
/// in the embedder's table, or a function in guest code.
#[derive(Clone, Copy, Debug, PartialEq, Eq, Structural)]
pub enum IMP {
    Host(u32),
    Guest(GuestFunction),
}

/// One entry of a method table.
#[derive(Clone, Copy, Debug, PartialEq, Eq, Structural)]
pub struct Method {
    pub selector: SEL,
    pub imp: IMP,
    /// Type code of the return value: `@` for an object, `i` for an `int`.
    pub return_type: u8,
}

/// Everything the runtime knows of a class.
pub struct ClassDescriptor {
    pub name: Vec<u8>,
    pub superclass: Option<Class>,
    pub instance_methods: Vec<Method>,
    pub class_methods: Vec<Method>,
    pub protocols: Vec<Protocol>,
}

/// What the runtime keeps for a live object.
pub struct ObjectEntry<H> {
    pub class: Class,
    /// Zero only between the last release and the removal of the entry.
    pub refcount: u32,
    pub host_object: H,
}

/// Why the runtime refused an operation.
#[derive(Clone, Copy, Debug, PartialEq, Eq, Structural)]
pub enum ObjCError {
    /// No object is registered at this address.
    NotFound,
    /// The object's count is already zero.
    OverRelease,
    /// The object's count has reached zero; all that is left is its teardown.
    Deallocating,
    /// The object is still referenced and cannot be torn down.
    StillReferenced,
    /// The count cannot grow any further.
    RefcountOverflow,
    /// No class on the receiver's chain has a method for the selector.
    DoesNotUnderstand,
    /// The handle names no registered class.
    UnknownClass,
    /// A class of this name is already registered.
    DuplicateClass,
    /// A class without superclass was offered though the root exists.
    SecondRoot,
    /// No autorelease pool is in place.
    NoPool,
    /// The pool is not the innermost one.
    NotTopPool,
    /// An object is already registered at the address that was allocated.
    AddressInUse,
    /// Guest memory refused the operation.
    Mem(MemError),
}

/// First entry of a method table for the selector, in table order.
pub open spec fn find_method(table: Seq<Method>, selector: SEL) -> Option<Method>
    decreases table.len(),
{
    if table.len() == 0 {
        None
    } else if table[0].selector == selector {
        Some(table[0])
    } else {
        find_method(table.drop_first(), selector)
    }
}

/// The superclass of a class, where the handle is valid and the class has one.
pub open spec fn parent_of(classes: Seq<ClassDescriptor>, class: Class) -> Option<Class> {
    if class.index < classes.len() {
        match classes[class.index as int].superclass {
            Some(p) => if p.index < class.index {
                Some(p)
            } else {
                None
            },
            None => None,
        }
    } else {
        None
    }
}

/// The chain from a class to the root, the class itself first.
pub open spec fn ancestors_of(classes: Seq<ClassDescriptor>, class: Class) -> Seq<Class>
    decreases class.index,
{
    match parent_of(classes, class) {
        Some(p) => seq![class] + ancestors_of(classes, p),
        None => seq![class],
    }
}

/// The method table of a class on one side.
pub open spec fn table_of(classes: Seq<ClassDescriptor>, class: Class, class_side: bool) -> Seq<
    Method,
> {
    if class.index < classes.len() {
        if class_side {
            classes[class.index as int].class_methods@
        } else {
            classes[class.index as int].instance_methods@
        }
    } else {
        Seq::empty()
    }
}

/// The method that a selector resolves to, starting at a class: the first
/// match in the class's own table, else what the superclass resolves it to.
pub open spec fn method_of(
    classes: Seq<ClassDescriptor>,
    class: Class,
    selector: SEL,
    class_side: bool,
) -> Option<Method>
    decreases class.index,
{
    match find_method(table_of(classes, class, class_side), selector) {
        Some(m) => Some(m),
        None => match parent_of(classes, class) {
            Some(p) => method_of(classes, p, selector, class_side),
            None => None,
        },
    }
}

/// Whether a class or one of its ancestors adopts the protocol.
pub open spec fn conforms(classes: Seq<ClassDescriptor>, class: Class, protocol: Protocol) -> bool
    decreases class.index,
{
    ||| class.index < classes.len() && classes[class.index as int].protocols@.contains(protocol)
    ||| match parent_of(classes, class) {
        Some(p) => conforms(classes, p, protocol),
        None => false,
    }
}

/// A list of selector names with one more name interned: the list as it is
/// where it holds the name, else with the name at its end.
pub open spec fn interned(selectors: Seq<Seq<u8>>, name: Seq<u8>) -> Seq<Seq<u8>> {
    if selectors.contains(name) {
        selectors
    } else {
        selectors.push(name)
    }
}

/// A list of selector names with more names interned, first name first.
pub open spec fn interned_all(selectors: Seq<Seq<u8>>, names: Seq<Seq<u8>>) -> Seq<Seq<u8>>
    decreases names.len(),
{
    if names.len() == 0 {
        selectors
    } else {
        interned(interned_all(selectors, names.drop_last()), names.last())
    }
}

/// One entry of a method table as a framework offers it: the selector by
/// its name.
pub struct MethodTemplate {
    pub selector: Vec<u8>,
    pub imp: IMP,
    pub return_type: u8,
}

/// A class as a framework offers it: the superclass and the selectors by
/// their names.
pub struct ClassTemplate {
    pub name: Vec<u8>,
    pub superclass: Option<Vec<u8>>,
    pub instance_methods: Vec<MethodTemplate>,
    pub class_methods: Vec<MethodTemplate>,
    pub protocols: Vec<Protocol>,
}

/// The selector names of a list of method templates.
pub open spec fn template_names(methods: Seq<MethodTemplate>) -> Seq<Seq<u8>> {
    Seq::new(methods.len(), |i: int| methods[i].selector@)
}

/// Whether a method table is what a list of templates asks for: entry by
/// entry the same implementation and return type, under the handle of the
/// selector that the template names.
pub open spec fn table_matches(
    selectors: Seq<Seq<u8>>,
    table: Seq<Method>,
    methods: Seq<MethodTemplate>,
) -> bool {
    &&& table.len() == methods.len()
    &&& forall|i: int|
        0 <= i < table.len() ==> {
            &&& (#[trigger] table[i]).imp == methods[i].imp
            &&& table[i].return_type == methods[i].return_type
            &&& table[i].selector.index < selectors.len()
            &&& selectors[table[i].selector.index as int] == methods[i].selector@
        }
}

/// Whether a class of a name is registered.
pub open spec fn named(classes: Seq<ClassDescriptor>, name: Seq<u8>) -> bool {
    exists|i: int| 0 <= i < classes.len() && (#[trigger] classes[i]).name@ == name
}

/// What linking a class template is answered with.
pub open spec fn link_result(classes: Seq<ClassDescriptor>, template: &ClassTemplate) -> Result<
    Class,
    ObjCError,
> {
    if named(classes, template.name@) {
        Err(ObjCError::DuplicateClass)
    } else {
        match template.superclass {
            None => if classes.len() == 0 {
                Ok(Class { index: 0 })
            } else {
                Err(ObjCError::SecondRoot)
            },
            Some(name) => if named(classes, name@) {
                Ok(Class { index: classes.len() as usize })
            } else {
                Err(ObjCError::UnknownClass)
            },
        }
    }
}

/// What registering a class is answered with.
pub open spec fn register_result(classes: Seq<ClassDescriptor>, template: ClassDescriptor) -> Result<
    Class,
    ObjCError,
> {
    if exists|i: int| 0 <= i < classes.len() && (#[trigger] classes[i]).name@ == template.name@ {
        Err(ObjCError::DuplicateClass)
    } else {
        match template.superclass {
            None => if classes.len() == 0 {
                Ok(Class { index: 0 })
            } else {
                Err(ObjCError::SecondRoot)
            },
            Some(p) => if p.index < classes.len() {
                Ok(Class { index: classes.len() as usize })
            } else {
                Err(ObjCError::UnknownClass)
            },
        }
    }
}

/// The object runtime. `H` is the embedder's host-object type; the runtime
/// stores one per object and never looks inside.
pub struct ObjC<H> {
    selectors: Vec<Vec<u8>>,
    classes: Vec<ClassDescriptor>,
    objects: HashMap<u32, ObjectEntry<H>>,
    pools: Vec<Vec<id>>,
}

impl<H> ObjC<H> {
    /// The interned selector names; a selector's handle is its index here.
    pub closed spec fn selectors(&self) -> Seq<Seq<u8>> {
        Seq::new(self.selectors@.len(), |i: int| self.selectors@[i]@)
    }

    /// The class arena; a class's handle is its index here.
    pub closed spec fn classes(&self) -> Seq<ClassDescriptor> {
        self.classes@
    }

    /// The registered objects, by address.
    pub closed spec fn objects(&self) -> Map<u32, ObjectEntry<H>> {
        self.objects@
    }

    /// The autorelease pools, outermost first, each in registration order.
    pub closed spec fn pools(&self) -> Seq<Seq<id>> {
        Seq::new(self.pools@.len(), |i: int| self.pools@[i]@)
    }

    /// Selector and class names are unique, every class but the first has a
    /// superclass registered before it, and every object's class exists.
    pub closed spec fn wf(&self) -> bool {
        &&& forall|i: int, j: int|
            0 <= i < j < self.selectors@.len() ==> (#[trigger] self.selectors@[i])@
                != (#[trigger] self.selectors@[j])@
        &&& forall|i: int, j: int|
            0 <= i < j < self.classes@.len() ==> (#[trigger] self.classes@[i]).name@
                != (#[trigger] self.classes@[j]).name@
        &&& forall|i: int|
            0 <= i < self.classes@.len() ==> match (#[trigger] self.classes@[i]).superclass {
                Some(p) => p.index < i,
                None => i == 0,
            }
        &&& forall|a: u32|
            self.objects@.contains_key(a) ==> (#[trigger] self.objects@[a]).class.index
                < self.classes@.len()
    }

    /// Whether a handle names a class of the arena.
    pub open spec fn valid_class(&self, class: Class) -> bool {
        class.index < self.classes().len()
    }

    /// The chain from a class to the root, the class itself first.
    pub open spec fn ancestors(&self, class: Class) -> Seq<Class> {
        ancestors_of(self.classes(), class)
    }

    /// The method that a selector resolves to, from a class on.
    pub open spec fn method_for(&self, class: Class, selector: SEL, class_side: bool) -> Option<
        Method,
    > {
        method_of(self.classes(), class, selector, class_side)
    }

    /// The handle of the selector of a name, where the name has been interned.
    pub open spec fn selector_for(&self, name: Seq<u8>) -> Option<SEL> {
        if self.selectors().contains(name) {
            Some(SEL { index: self.selectors().index_of(name) as usize })
        } else {
            None
        }
    }

    /// A name is the name of one selector at most.
    pub proof fn lemma_selector_for(&self, name: Seq<u8>, k: int)
        requires
            self.wf(),
            0 <= k < self.selectors().len(),
            self.selectors()[k] == name,
        ensures
            self.selector_for(name) == Some(SEL { index: k as usize }),
            k <= usize::MAX,
    {
        let names = self.selectors();
        assert(self.selectors.len() == self.selectors@.len());
        assert(names.contains(name));
        let found = names.index_of(name);
        assert(self.selectors@[found]@ == names[found]);
        assert(self.selectors@[k]@ == names[k]);
        if found < k {
        } else if found > k {
        }
    }

    /// A runtime without classes, selectors, objects or pools.
    pub fn new() -> (objc: Self)
        ensures
            objc.wf(),
            objc.selectors().len() == 0,
            objc.classes().len() == 0,
            objc.objects() == Map::<u32, ObjectEntry<H>>::empty(),
            objc.pools().len() == 0,
    {
        ObjC { selectors: Vec::new(), classes: Vec::new(), objects: HashMap::new(), pools: Vec::new() }
    }

    /// The handle of the selector of this name, if it has been interned.
    pub fn lookup_selector(&self, name: &[u8]) -> (res: Option<SEL>)
        requires
            self.wf(),
        ensures
            res == self.selector_for(name@),
            match res {
                Some(sel) => sel.index < self.selectors().len() && self.selectors()[sel.index as int]
                    == name@,
                None => forall|i: int|
                    0 <= i < self.selectors().len() ==> #[trigger] self.selectors()[i] != name@,
            },
    {
        let mut i: usize = 0;
        while i < self.selectors.len()
            invariant
                self.wf(),
                i <= self.selectors@.len(),
                forall|k: int| 0 <= k < i ==> (#[trigger] self.selectors@[k])@ != name@,
            decreases self.selectors@.len() - i,
        {
            if bytes_eq(self.selectors[i].as_slice(), name) {
                proof {
                    self.lemma_selector_for(name@, i as int);
                }
                return Some(SEL { index: i });
            }
            i += 1;
        }
        proof {
            if self.selectors().contains(name@) {
                let k = choose|k: int| 0 <= k < self.selectors().len() && self.selectors()[k] == name@;
                assert(self.selectors@[k]@ == name@);
            }
        }
        None
    }

    /// Interns a selector name: the handle it already has, or a new one.
    pub fn register_selector(&mut self, name: &[u8]) -> (sel: SEL)
        requires
            old(self).wf(),
        ensures
            final(self).wf(),
            sel.index < final(self).selectors().len(),
            final(self).selectors()[sel.index as int] == name@,
            final(self).selectors().len() >= old(self).selectors().len(),
            forall|i: int|
                0 <= i < old(self).selectors().len() ==> #[trigger] final(self).selectors()[i]
                    == old(self).selectors()[i],
            final(self).selectors().len() == old(self).selectors().len() <==> exists|i: int|
                0 <= i < old(self).selectors().len() && #[trigger] old(self).selectors()[i]
                    == name@,
            final(self).selectors().len() <= old(self).selectors().len() + 1,
            final(self).selectors() == interned(old(self).selectors(), name@),
            final(self).classes() == old(self).classes(),
            final(self).objects() == old(self).objects(),
            final(self).pools() == old(self).pools(),
    {
        match self.lookup_selector(name) {
            Some(sel) => {
                assert(self.selectors()[sel.index as int] == name@);
                sel
            },
            None => {
                let index = self.selectors.len();
                proof {
                    assert forall|i: int| 0 <= i < self.selectors@.len() implies (
                    #[trigger] self.selectors@[i])@ != name@ by {
                        assert(self.selectors()[i] == self.selectors@[i]@);
                    }
                }
                self.selectors.push(crate::bytes::bytes_to_vec(name));
                assert(self.selectors() =~= old(self).selectors().push(name@));
                SEL { index }
            },
        }
    }

    /// The name of a selector.
    pub fn selector_name(&self, sel: SEL) -> (res: Option<&[u8]>)
        ensures
            match res {
                Some(name) => sel.index < self.selectors().len() && name@
                    == self.selectors()[sel.index as int],
                None => sel.index >= self.selectors().len(),
            },
    {
        if sel.index < self.selectors.len() {
            Some(self.selectors[sel.index].as_slice())
        } else {
            None
        }
    }

    /// The class of this name, if one is registered.
    pub fn get_known_class(&self, name: &[u8]) -> (res: Option<Class>)
        requires
            self.wf(),
        ensures
            match res {
                Some(class) => self.valid_class(class) && self.classes()[class.index as int].name@
                    == name@,
                None => forall|i: int|
                    0 <= i < self.classes().len() ==> (#[trigger] self.classes()[i]).name@ != name@,
            },
    {
        let mut i: usize = 0;
        while i < self.classes.len()
            invariant
                i <= self.classes@.len(),
                forall|k: int| 0 <= k < i ==> (#[trigger] self.classes@[k]).name@ != name@,
            decreases self.classes@.len() - i,
        {
            if bytes_eq(self.classes[i].name.as_slice(), name) {
                return Some(Class { index: i });
            }
            i += 1;
        }
        None
    }

    /// Adds a class to the arena. The first class becomes the root; every
    /// later one names a registered superclass.
    pub fn register_class(&mut self, template: ClassDescriptor) -> (res: Result<Class, ObjCError>)
        requires
            old(self).wf(),
        ensures
            final(self).wf(),
            res == register_result(old(self).classes(), template),
            res is Ok ==> final(self).classes() == old(self).classes().push(template),
            res is Err ==> final(self).classes() == old(self).classes(),
            final(self).selectors() == old(self).selectors(),
            final(self).objects() == old(self).objects(),
            final(self).pools() == old(self).pools(),
    {
        if self.get_known_class(template.name.as_slice()).is_some() {
            return Err(ObjCError::DuplicateClass);
        }
        let index = self.classes.len();
        match template.superclass {
            None => {
                if index != 0 {
                    return Err(ObjCError::SecondRoot);
                }
            },
            Some(p) => {
                if p.index >= index {
                    return Err(ObjCError::UnknownClass);
                }
            },
        }
        self.classes.push(template);
        Ok(Class { index })
    }

    /// The name of a class.
    pub fn get_class_name(&self, class: Class) -> (res: Option<&[u8]>)
        ensures
            match res {
                Some(name) => self.valid_class(class) && name@
                    == self.classes()[class.index as int].name@,
                None => !self.valid_class(class),
            },
    {
        if class.index < self.classes.len() {
            Some(self.classes[class.index].name.as_slice())
        } else {
            None
        }
    }

    /// The superclass of a class; `None` for the root and for a handle that
    /// names no class.
    pub fn superclass(&self, class: Class) -> (res: Option<Class>)
        requires
            self.wf(),
        ensures
            res == parent_of(self.classes(), class),
    {
        if class.index < self.classes.len() {
            self.classes[class.index].superclass
        } else {
            None
        }
    }

    /// Whether `other` is `class` or one of its ancestors.
    pub fn class_is_subclass_of(&self, class: Class, other: Class) -> (res: bool)
        requires
            self.wf(),
        ensures
            res == self.ancestors(class).contains(other),
    {
        let mut cur = class;
        loop
            invariant
                self.wf(),
                self.ancestors(class).contains(other) == self.ancestors(cur).contains(other),
            decreases cur.index,
        {
            if cur == other {
                assert(self.ancestors(cur)[0] == other);
                return true;
            }
            match self.superclass(cur) {
                Some(p) => {
                    proof {
                        let rest = ancestors_of(self.classes(), p);
                        assert(self.ancestors(cur) =~= seq![cur] + rest);
                        if rest.contains(other) {
                            let k = choose|k: int| 0 <= k < rest.len() && rest[k] == other;
                            assert((seq![cur] + rest)[k + 1] == other);
                        }
                        if (seq![cur] + rest).contains(other) {
                            let k = choose|k: int|
                                0 <= k < (seq![cur] + rest).len() && (seq![cur] + rest)[k] == other;
                            assert(rest[k - 1] == other);
                        }
                    }
                    cur = p;
                },
                None => {
                    proof {
                        assert(self.ancestors(cur) =~= seq![cur]);
                        if self.ancestors(cur).contains(other) {
                            let k = choose|k: int|
                                0 <= k < self.ancestors(cur).len() && self.ancestors(cur)[k]
                                    == other;
                        }
                    }
                    return false;
                },
            }
        }
    }

    /// Resolves a selector from a class upwards, on the instance side or on
    /// the class side.
    pub fn lookup_method(&self, class: Class, selector: SEL, class_side: bool) -> (res: Option<
        Method,
    >)
        requires
            self.wf(),
        ensures
            res == self.method_for(class, selector, class_side),
    {
        let mut cur = class;
        loop
            invariant
                self.wf(),
                self.method_for(class, selector, class_side) == self.method_for(
                    cur,
                    selector,
                    class_side,
                ),
            decreases cur.index,
        {
            if cur.index >= self.classes.len() {
                return None;
            }
            let descriptor = &self.classes[cur.index];
            let table = if class_side {
                &descriptor.class_methods
            } else {
                &descriptor.instance_methods
            };
            let found = find_in_table(table.as_slice(), selector);
            if found.is_some() {
                return found;
            }
            match descriptor.superclass {
                Some(p) => {
                    cur = p;
                },
                None => {
                    return None;
                },
            }
        }
    }

    /// Whether instances of the class respond to the selector.
    pub fn class_has_method(&self, class: Class, selector: SEL) -> (res: bool)
        requires
            self.wf(),
        ensures
            res == self.method_for(class, selector, false).is_some(),
    {
        self.lookup_method(class, selector, false).is_some()
    }

    /// Whether the class or one of its ancestors adopts the protocol.
    pub fn class_conforms_to_protocol(&self, class: Class, protocol: Protocol) -> (res: bool)
        requires
            self.wf(),
        ensures
            res == conforms(self.classes(), class, protocol),
    {
        let mut cur = class;
        loop
            invariant
                self.wf(),
                conforms(self.classes(), class, protocol) == conforms(self.classes(), cur, protocol),
            decreases cur.index,
        {
            if cur.index >= self.classes.len() {
                return false;
            }
            let descriptor = &self.classes[cur.index];
            if adopts(descriptor.protocols.as_slice(), protocol) {
                return true;
            }
            match descriptor.superclass {
                Some(p) => {
                    cur = p;
                },
                None => {
                    return false;
                },
            }
        }
    }
}

/// The entry of `addr` with its count set to `refcount`.
pub open spec fn with_count<H>(objects: Map<u32, ObjectEntry<H>>, addr: u32, refcount: int) -> Map<
    u32,
    ObjectEntry<H>,
> {
    objects.insert(
        addr,
        ObjectEntry {
            class: objects[addr].class,
            refcount: refcount as u32,
            host_object: objects[addr].host_object,
        },
    )
}

/// What a retain of the object at `addr` is answered with.
pub open spec fn retain_result<H>(objects: Map<u32, ObjectEntry<H>>, addr: u32) -> Result<
    (),
    ObjCError,
> {
    if !objects.contains_key(addr) {
        Err(ObjCError::NotFound)
    } else if objects[addr].refcount == 0 {
        Err(ObjCError::Deallocating)
    } else if objects[addr].refcount == u32::MAX {
        Err(ObjCError::RefcountOverflow)
    } else {
        Ok(())
    }
}

/// The objects after a retain of the object at `addr`.
pub open spec fn retained<H>(objects: Map<u32, ObjectEntry<H>>, addr: u32) -> Map<
    u32,
    ObjectEntry<H>,
> {
    if retain_result(objects, addr) is Ok {
        with_count(objects, addr, objects[addr].refcount + 1)
    } else {
        objects
    }
}

/// What a release of the object at `addr` is answered with: whether the
/// count has reached zero, so that the teardown is due.
pub open spec fn release_result<H>(objects: Map<u32, ObjectEntry<H>>, addr: u32) -> Result<
    bool,
    ObjCError,
> {
    if !objects.contains_key(addr) {
        Err(ObjCError::NotFound)
    } else if objects[addr].refcount == 0 {
        Err(ObjCError::OverRelease)
    } else {
        Ok(objects[addr].refcount == 1)
    }
}

/// The objects after a release of the object at `addr`.
pub open spec fn released<H>(objects: Map<u32, ObjectEntry<H>>, addr: u32) -> Map<
    u32,
    ObjectEntry<H>,
> {
    if release_result(objects, addr) is Ok {
        with_count(objects, addr, objects[addr].refcount - 1)
    } else {
        objects
    }
}

/// The objects after each member of a pool has been released once, first
/// member first. A member that cannot be released is passed over.
pub open spec fn drained<H>(objects: Map<u32, ObjectEntry<H>>, members: Seq<id>) -> Map<
    u32,
    ObjectEntry<H>,
>
    decreases members.len(),
{
    if members.len() == 0 {
        objects
    } else {
        drained(released(objects, members[0].addr), members.drop_first())
    }
}

/// The members of a pool whose release brings their count to zero, in the
/// order in which that happens.
pub open spec fn teardowns_due<H>(objects: Map<u32, ObjectEntry<H>>, members: Seq<id>) -> Seq<id>
    decreases members.len(),
{
    if members.len() == 0 {
        Seq::empty()
    } else {
        let rest = teardowns_due(released(objects, members[0].addr), members.drop_first());
        if release_result(objects, members[0].addr) == Ok::<bool, ObjCError>(true) {
            seq![members[0]] + rest
        } else {
            rest
        }
    }
}

/// The members of a pool that cannot be released when their turn comes.
pub open spec fn misused_members<H>(objects: Map<u32, ObjectEntry<H>>, members: Seq<id>) -> Seq<
    id,
>
    decreases members.len(),
{
    if members.len() == 0 {
        Seq::empty()
    } else {
        let rest = misused_members(released(objects, members[0].addr), members.drop_first());
        if release_result(objects, members[0].addr) is Err {
            seq![members[0]] + rest
        } else {
            rest
        }
    }
}

/// What draining the pool at a place of the pool stack is answered with:
/// only the innermost pool, the last of the stack, can be drained.
pub open spec fn drain_result(pools: Seq<Seq<id>>, pool: int) -> Result<(), ObjCError> {
    if pool + 1 == pools.len() {
        Ok(())
    } else {
        Err(ObjCError::NotTopPool)
    }
}

/// What draining a pool gave.
pub struct DrainReport {
    /// Objects whose count reached zero: their teardown is due, in this order.
    pub teardowns: Vec<id>,
    /// Members that could not be released: unknown objects and objects whose
    /// count was already zero.
    pub misused: Vec<id>,
}

impl<H> ObjC<H> {
    /// Whether an object is registered at the address.
    pub open spec fn is_object(&self, obj: id) -> bool {
        self.objects().contains_key(obj.addr)
    }

    /// What creating an object is answered with.
    pub open spec fn alloc_result(&self, class: Class, mem: &Mem) -> Result<id, ObjCError> {
        if !self.valid_class(class) {
            Err(ObjCError::UnknownClass)
        } else if self.objects().contains_key(mem.brk() as u32) {
            Err(ObjCError::AddressInUse)
        } else if !mem.fits(INSTANCE_SIZE as int) {
            Err(ObjCError::Mem(MemError::OutOfMemory))
        } else {
            Ok(Ptr { addr: mem.brk() as u32, pointee: core::marker::PhantomData })
        }
    }

    /// What tearing an object down is answered with, apart from the host
    /// object that a success hands back.
    pub open spec fn dealloc_result(&self, obj: id, mem: &Mem) -> Result<(), ObjCError> {
        if !self.is_object(obj) {
            Err(ObjCError::NotFound)
        } else if self.objects()[obj.addr].refcount != 0 {
            Err(ObjCError::StillReferenced)
        } else {
            match mem.free_result(obj@) {
                Ok(_) => Ok(()),
                Err(e) => Err(ObjCError::Mem(e)),
            }
        }
    }

    /// Creates an object of a class, with a count of one, at a fresh guest
    /// address, and stores its host object.
    pub fn alloc_object(&mut self, class: Class, host_object: H, mem: &mut Mem) -> (res: Result<
        id,
        ObjCError,
    >)
        requires
            old(self).wf(),
            old(mem).wf(),
        ensures
            final(self).wf(),
            final(mem).wf(),
            res == old(self).alloc_result(class, old(mem)),
            final(self).selectors() == old(self).selectors(),
            final(self).classes() == old(self).classes(),
            final(self).pools() == old(self).pools(),
            match res {
                Ok(obj) => {
                    &&& final(self).objects() == old(self).objects().insert(
                        obj.addr,
                        ObjectEntry { class, refcount: 1, host_object },
                    )
                    &&& final(mem).records() == old(mem).records().push(
                        crate::mem::AllocRecord { base: obj.addr, size: INSTANCE_SIZE, live: true },
                    )
                    &&& final(mem).contents().subrange(0, old(mem).brk()) == old(mem).contents()
                },
                Err(_) => *final(self) == *old(self) && *final(mem) == *old(mem),
            },
    {
        if class.index >= self.classes.len() {
            return Err(ObjCError::UnknownClass);
        }
        let next = mem.next_address();
        if self.objects.contains_key(&next) {
            return Err(ObjCError::AddressInUse);
        }
        match mem.allocate(INSTANCE_SIZE) {
            Ok(p) => {
                self.objects.insert(p.to_bits(), ObjectEntry { class, refcount: 1, host_object });
                Ok(p.cast())
            },
            Err(e) => Err(ObjCError::Mem(e)),
        }
    }

    /// Removes an object whose count has reached zero, frees its guest memory
    /// and hands its host object back for teardown.
    pub fn dealloc_object(&mut self, obj: id, mem: &mut Mem) -> (res: Result<H, ObjCError>)
        requires
            old(self).wf(),
            old(mem).wf(),
        ensures
            final(self).wf(),
            final(mem).wf(),
            final(self).selectors() == old(self).selectors(),
            final(self).classes() == old(self).classes(),
            final(self).pools() == old(self).pools(),
            final(mem).contents() == old(mem).contents(),
            match res {
                Ok(host_object) => {
                    &&& old(self).dealloc_result(obj, old(mem)) is Ok
                    &&& host_object == old(self).objects()[obj.addr].host_object
                    &&& final(self).objects() == old(self).objects().remove(obj.addr)
                    &&& final(mem).records() == old(mem).records_after_free(obj@)
                },
                Err(e) => {
                    &&& old(self).dealloc_result(obj, old(mem)) == Err::<(), ObjCError>(e)
                    &&& final(self).objects() == old(self).objects()
                    &&& final(mem).records() == old(mem).records()
                },
            },
    {
        let addr = obj.to_bits();
        match self.objects.get(&addr) {
            None => {
                return Err(ObjCError::NotFound);
            },
            Some(entry) => {
                if entry.refcount != 0 {
                    return Err(ObjCError::StillReferenced);
                }
            },
        }
        match mem.free(obj.cast()) {
            Ok(_) => {},
            Err(e) => {
                return Err(ObjCError::Mem(e));
            },
        }
        match self.objects.remove(&addr) {
            Some(entry) => Ok(entry.host_object),
            None => Err(ObjCError::NotFound),
        }
    }

    /// Adds a reference to an object.
    pub fn retain(&mut self, obj: id) -> (res: Result<(), ObjCError>)
        requires
            old(self).wf(),
        ensures
            final(self).wf(),
            res == retain_result(old(self).objects(), obj.addr),
            final(self).objects() == retained(old(self).objects(), obj.addr),
            final(self).selectors() == old(self).selectors(),
            final(self).classes() == old(self).classes(),
            final(self).pools() == old(self).pools(),
    {
        let addr = obj.to_bits();
        match self.objects.get(&addr) {
            None => {
                return Err(ObjCError::NotFound);
            },
            Some(entry) => {
                if entry.refcount == 0 {
                    return Err(ObjCError::Deallocating);
                }
                if entry.refcount == u32::MAX {
                    return Err(ObjCError::RefcountOverflow);
                }
            },
        }
        match self.objects.remove(&addr) {
            Some(entry) => {
                self.objects.insert(
                    addr,
                    ObjectEntry {
                        class: entry.class,
                        refcount: entry.refcount + 1,
                        host_object: entry.host_object,
                    },
                );
                assert(self.objects@ =~= retained(old(self).objects@, addr));
                Ok(())
            },
            None => Err(ObjCError::NotFound),
        }
    }

    /// Drops a reference to an object. Answers `true` when this was the last
    /// one: the entry then stays, with a count of zero, until
    /// [`ObjC::dealloc_object`] removes it.
    pub fn release(&mut self, obj: id) -> (res: Result<bool, ObjCError>)
        requires
            old(self).wf(),
        ensures
            final(self).wf(),
            res == release_result(old(self).objects(), obj.addr),
            final(self).objects() == released(old(self).objects(), obj.addr),
            final(self).selectors() == old(self).selectors(),
            final(self).classes() == old(self).classes(),
            final(self).pools() == old(self).pools(),
    {
        let addr = obj.to_bits();
        match self.objects.get(&addr) {
            None => {
                return Err(ObjCError::NotFound);
            },
            Some(entry) => {
                if entry.refcount == 0 {
                    return Err(ObjCError::OverRelease);
                }
            },
        }
        match self.objects.remove(&addr) {
            Some(entry) => {
                let left: u32 = entry.refcount - 1;
                self.objects.insert(
                    addr,
                    ObjectEntry { class: entry.class, refcount: left, host_object: entry.host_object },
                );
                assert(self.objects@ =~= released(old(self).objects@, addr));
                Ok(left == 0)
            },
            None => Err(ObjCError::NotFound),
        }
    }

    /// The count of an object.
    pub fn get_refcount(&self, obj: id) -> (res: Result<u32, ObjCError>)
        ensures
            match res {
                Ok(count) => self.is_object(obj) && count == self.objects()[obj.addr].refcount,
                Err(e) => !self.is_object(obj) && e == ObjCError::NotFound,
            },
    {
        match self.objects.get(&obj.to_bits()) {
            Some(entry) => Ok(entry.refcount),
            None => Err(ObjCError::NotFound),
        }
    }

    /// The class of an object.
    pub fn class_of(&self, obj: id) -> (res: Result<Class, ObjCError>)
        ensures
            match res {
                Ok(class) => self.is_object(obj) && class == self.objects()[obj.addr].class,
                Err(e) => !self.is_object(obj) && e == ObjCError::NotFound,
            },
    {
        match self.objects.get(&obj.to_bits()) {
            Some(entry) => Ok(entry.class),
            None => Err(ObjCError::NotFound),
        }
    }

    /// The host object of an object.
    pub fn borrow(&self, obj: id) -> (res: Result<&H, ObjCError>)
        ensures
            match res {
                Ok(host_object) => self.is_object(obj) && *host_object
                    == self.objects()[obj.addr].host_object,
                Err(e) => !self.is_object(obj) && e == ObjCError::NotFound,
            },
    {
        match self.objects.get(&obj.to_bits()) {
            Some(entry) => Ok(&entry.host_object),
            None => Err(ObjCError::NotFound),
        }
    }

    /// Stores a new host object for an object and hands the previous one
    /// back. Class and count stay as they are.
    pub fn replace_host_object(&mut self, obj: id, host_object: H) -> (res: Result<H, ObjCError>)
        requires
            old(self).wf(),
        ensures
            final(self).wf(),
            final(self).selectors() == old(self).selectors(),
            final(self).classes() == old(self).classes(),
            final(self).pools() == old(self).pools(),
            match res {
                Ok(previous) => {
                    &&& old(self).is_object(obj)
                    &&& previous == old(self).objects()[obj.addr].host_object
                    &&& final(self).objects() == old(self).objects().insert(
                        obj.addr,
                        ObjectEntry {
                            class: old(self).objects()[obj.addr].class,
                            refcount: old(self).objects()[obj.addr].refcount,
                            host_object,
                        },
                    )
                },
                Err(e) => {
                    &&& !old(self).is_object(obj)
                    &&& e == ObjCError::NotFound
                    &&& final(self).objects() == old(self).objects()
                },
            },
    {
        let addr = obj.to_bits();
        match self.objects.remove(&addr) {
            Some(entry) => {
                self.objects.insert(
                    addr,
                    ObjectEntry { class: entry.class, refcount: entry.refcount, host_object },
                );
                Ok(entry.host_object)
            },
            None => {
                assert(self.objects@ =~= old(self).objects@);
                Err(ObjCError::NotFound)
            },
        }
    }

    /// What a message to an object resolves to.
    pub open spec fn resolution(&self, receiver: id, selector: SEL) -> Result<Method, ObjCError> {
        if !self.is_object(receiver) {
            Err(ObjCError::NotFound)
        } else {
            match self.method_for(self.objects()[receiver.addr].class, selector, false) {
                Some(m) => Ok(m),
                None => Err(ObjCError::DoesNotUnderstand),
            }
        }
    }

    /// Resolves a message to an object: the method of the most derived class
    /// on the receiver's chain that has one for the selector.
    pub fn resolve(&self, receiver: id, selector: SEL) -> (res: Result<Method, ObjCError>)
        requires
            self.wf(),
        ensures
            res == self.resolution(receiver, selector),
    {
        match self.class_of(receiver) {
            Ok(class) => match self.lookup_method(class, selector, false) {
                Some(m) => Ok(m),
                None => Err(ObjCError::DoesNotUnderstand),
            },
            Err(e) => Err(e),
        }
    }

    /// Resolves a message to a class, along the class side of its chain.
    pub fn resolve_class_message(&self, class: Class, selector: SEL) -> (res: Result<
        Method,
        ObjCError,
    >)
        requires
            self.wf(),
        ensures
            res == if !self.valid_class(class) {
                Err::<Method, ObjCError>(ObjCError::UnknownClass)
            } else {
                match self.method_for(class, selector, true) {
                    Some(m) => Ok::<Method, ObjCError>(m),
                    None => Err::<Method, ObjCError>(ObjCError::DoesNotUnderstand),
                }
            },
    {
        if class.index >= self.classes.len() {
            return Err(ObjCError::UnknownClass);
        }
        match self.lookup_method(class, selector, true) {
            Some(m) => Ok(m),
            None => Err(ObjCError::DoesNotUnderstand),
        }
    }

    /// Whether an object's class is exactly `class`.
    pub fn is_member_of(&self, obj: id, class: Class) -> (res: Result<bool, ObjCError>)
        ensures
            match res {
                Ok(b) => self.is_object(obj) && b == (self.objects()[obj.addr].class == class),
                Err(e) => !self.is_object(obj) && e == ObjCError::NotFound,
            },
    {
        match self.class_of(obj) {
            Ok(own) => Ok(own == class),
            Err(e) => Err(e),
        }
    }

    /// Whether an object's class is `class` or descends from it.
    pub fn is_kind_of(&self, obj: id, class: Class) -> (res: Result<bool, ObjCError>)
        requires
            self.wf(),
        ensures
            match res {
                Ok(b) => self.is_object(obj) && b == self.ancestors(
                    self.objects()[obj.addr].class,
                ).contains(class),
                Err(e) => !self.is_object(obj) && e == ObjCError::NotFound,
            },
    {
        match self.class_of(obj) {
            Ok(own) => Ok(self.class_is_subclass_of(own, class)),
            Err(e) => Err(e),
        }
    }

    /// Whether an object has a method for the selector.
    pub fn responds_to(&self, obj: id, selector: SEL) -> (res: Result<bool, ObjCError>)
        requires
            self.wf(),
        ensures
            match res {
                Ok(b) => self.is_object(obj) && b == self.method_for(
                    self.objects()[obj.addr].class,
                    selector,
                    false,
                ).is_some(),
                Err(e) => !self.is_object(obj) && e == ObjCError::NotFound,
            },
    {
        match self.class_of(obj) {
            Ok(own) => Ok(self.class_has_method(own, selector)),
            Err(e) => Err(e),
        }
    }

    /// Puts a new, empty pool on top of the pool stack and answers its
    /// position in the stack.
    pub fn push_pool(&mut self) -> (pool: usize)
        requires
            old(self).wf(),
        ensures
            final(self).wf(),
            pool == old(self).pools().len(),
            final(self).pools() == old(self).pools().push(Seq::<id>::empty()),
            final(self).selectors() == old(self).selectors(),
            final(self).classes() == old(self).classes(),
            final(self).objects() == old(self).objects(),
    {
        let pool = self.pools.len();
        self.pools.push(Vec::new());
        assert(self.pools() =~= old(self).pools().push(Seq::<id>::empty()));
        assert(self.selectors() =~= old(self).selectors());
        pool
    }

    /// What registering an object with the innermost pool is answered with.
    pub open spec fn autorelease_result(&self, obj: id) -> Result<(), ObjCError> {
        if self.pools().len() == 0 {
            Err(ObjCError::NoPool)
        } else if !self.is_object(obj) {
            Err(ObjCError::NotFound)
        } else {
            Ok(())
        }
    }

    /// Registers an object with the innermost pool, for one release when that
    /// pool is drained.
    pub fn autorelease(&mut self, obj: id) -> (res: Result<(), ObjCError>)
        requires
            old(self).wf(),
        ensures
            final(self).wf(),
            res == old(self).autorelease_result(obj),
            res is Ok ==> final(self).pools() == old(self).pools().update(
                old(self).pools().len() - 1,
                old(self).pools().last().push(obj),
            ),
            res is Err ==> final(self).pools() == old(self).pools(),
            final(self).selectors() == old(self).selectors(),
            final(self).classes() == old(self).classes(),
            final(self).objects() == old(self).objects(),
    {
        if self.pools.len() == 0 {
            return Err(ObjCError::NoPool);
        }
        if !self.objects.contains_key(&obj.to_bits()) {
            return Err(ObjCError::NotFound);
        }
        match self.pools.pop() {
            Some(mut top) => {
                top.push(obj);
                self.pools.push(top);
                assert(self.pools() =~= old(self).pools().update(
                    old(self).pools().len() - 1,
                    old(self).pools().last().push(obj),
                ));
                assert(self.selectors() =~= old(self).selectors());
                Ok(())
            },
            None => Err(ObjCError::NoPool),
        }
    }

    /// Drains the innermost pool: releases each member once, in the order in
    /// which they were registered, and removes the pool. Only the innermost
    /// pool can be drained.
    pub fn drain_pool(&mut self, pool: usize) -> (res: Result<DrainReport, ObjCError>)
        requires
            old(self).wf(),
        ensures
            final(self).wf(),
            final(self).selectors() == old(self).selectors(),
            final(self).classes() == old(self).classes(),
            match res {
                Ok(report) => {
                    &&& drain_result(old(self).pools(), pool as int) is Ok
                    &&& final(self).pools() == old(self).pools().drop_last()
                    &&& final(self).objects() == drained(
                        old(self).objects(),
                        old(self).pools().last(),
                    )
                    &&& report.teardowns@ == teardowns_due(
                        old(self).objects(),
                        old(self).pools().last(),
                    )
                    &&& report.misused@ == misused_members(
                        old(self).objects(),
                        old(self).pools().last(),
                    )
                },
                Err(e) => {
                    &&& drain_result(old(self).pools(), pool as int) == Err::<(), ObjCError>(e)
                    &&& final(self).pools() == old(self).pools()
                    &&& final(self).objects() == old(self).objects()
                },
            },
    {
        if self.pools.len() == 0 || pool != self.pools.len() - 1 {
            return Err(ObjCError::NotTopPool);
        }
        let members = match self.pools.pop() {
            Some(members) => members,
            None => {
                return Err(ObjCError::NotTopPool);
            },
        };
        assert(self.pools() =~= old(self).pools().drop_last());
        assert(self.selectors() =~= old(self).selectors());
        assert(members@ == old(self).pools().last());
        Ok(self.release_all(members.as_slice()))
    }

    /// Releases each object of a list once, first object first, and reports
    /// whose teardown is due and which could not be released.
    pub fn release_all(&mut self, members: &[id]) -> (report: DrainReport)
        requires
            old(self).wf(),
        ensures
            final(self).wf(),
            final(self).selectors() == old(self).selectors(),
            final(self).classes() == old(self).classes(),
            final(self).pools() == old(self).pools(),
            final(self).objects() == drained(old(self).objects(), members@),
            report.teardowns@ == teardowns_due(old(self).objects(), members@),
            report.misused@ == misused_members(old(self).objects(), members@),
    {
        let mut teardowns: Vec<id> = Vec::new();
        let mut misused: Vec<id> = Vec::new();
        let mut i: usize = 0;
        assert(members@.subrange(0, members@.len() as int) =~= members@);
        while i < members.len()
            invariant
                i <= members@.len(),
                self.wf(),
                self.pools() == old(self).pools(),
                self.selectors() == old(self).selectors(),
                self.classes() == old(self).classes(),
                drained(old(self).objects(), members@) == drained(
                    self.objects(),
                    members@.subrange(i as int, members@.len() as int),
                ),
                teardowns_due(old(self).objects(), members@) == teardowns@ + teardowns_due(
                    self.objects(),
                    members@.subrange(i as int, members@.len() as int),
                ),
                misused_members(old(self).objects(), members@) == misused@ + misused_members(
                    self.objects(),
                    members@.subrange(i as int, members@.len() as int),
                ),
            decreases members@.len() - i,
        {
            let member = members[i];
            let ghost rest = members@.subrange(i as int, members@.len() as int);
            let ghost before = self.objects();
            let ghost teardowns_before = teardowns@;
            let ghost misused_before = misused@;
            proof {
                assert(rest[0] == member);
                assert(rest.drop_first() =~= members@.subrange(i + 1, members@.len() as int));
            }
            match self.release(member) {
                Ok(last) => {
                    if last {
                        teardowns.push(member);
                    }
                },
                Err(_) => {
                    misused.push(member);
                },
            }
            proof {
                let next = members@.subrange(i + 1, members@.len() as int);
                assert(teardowns@ + teardowns_due(self.objects(), next) =~= teardowns_before
                    + teardowns_due(before, rest));
                assert(misused@ + misused_members(self.objects(), next) =~= misused_before
                    + misused_members(before, rest));
            }
            i += 1;
        }
        DrainReport { teardowns, misused }
    }
}

impl<H> ObjC<H> {
    /// Interns the selectors of a list of method templates and makes the
    /// method table that they ask for.
    fn link_methods(&mut self, methods: &Vec<MethodTemplate>) -> (table: Vec<Method>)
        requires
            old(self).wf(),
        ensures
            final(self).wf(),
            final(self).selectors() == interned_all(old(self).selectors(), template_names(methods@)),
            final(self).selectors().len() >= old(self).selectors().len(),
            forall|i: int|
                0 <= i < old(self).selectors().len() ==> #[trigger] final(self).selectors()[i]
                    == old(self).selectors()[i],
            table_matches(final(self).selectors(), table@, methods@),
            final(self).classes() == old(self).classes(),
            final(self).objects() == old(self).objects(),
            final(self).pools() == old(self).pools(),
    {
        let ghost names = template_names(methods@);
        let mut table: Vec<Method> = Vec::new();
        let mut i: usize = 0;
        assert(names.subrange(0, 0) =~= Seq::<Seq<u8>>::empty());
        while i < methods.len()
            invariant
                self.wf(),
                i <= methods@.len(),
                names == template_names(methods@),
                self.selectors() == interned_all(old(self).selectors(), names.subrange(0, i as int)),
                self.selectors().len() >= old(self).selectors().len(),
                forall|k: int|
                    0 <= k < old(self).selectors().len() ==> #[trigger] self.selectors()[k] == old(
                        self,
                    ).selectors()[k],
                table_matches(self.selectors(), table@, methods@.subrange(0, i as int)),
                self.classes() == old(self).classes(),
                self.objects() == old(self).objects(),
                self.pools() == old(self).pools(),
            decreases methods@.len() - i,
        {
            let ghost before = self.selectors();
            let ghost done = table@;
            proof {
                assert(names.subrange(0, i + 1).drop_last() =~= names.subrange(0, i as int));
                assert(names.subrange(0, i + 1).last() == methods@[i as int].selector@);
            }
            let selector = self.register_selector(methods[i].selector.as_slice());
            table.push(Method { selector, imp: methods[i].imp, return_type: methods[i].return_type });
            proof {
                assert forall|k: int| 0 <= k < table@.len() implies {
                    &&& (#[trigger] table@[k]).imp == methods@.subrange(0, i + 1)[k].imp
                    &&& table@[k].return_type == methods@.subrange(0, i + 1)[k].return_type
                    &&& table@[k].selector.index < self.selectors().len()
                    &&& self.selectors()[table@[k].selector.index as int] == methods@.subrange(
                        0,
                        i + 1,
                    )[k].selector@
                } by {
                    if k < i {
                        assert(table@[k] == done[k]);
                        assert(methods@.subrange(0, i as int)[k] == methods@[k]);
                        assert(self.selectors()[done[k].selector.index as int]
                            == before[done[k].selector.index as int]);
                    }
                }
            }
            i += 1;
        }
        assert(names.subrange(0, names.len() as int) =~= names);
        assert(methods@.subrange(0, methods@.len() as int) =~= methods@);
        table
    }

    /// Links a class that a framework offers: interns the selectors of its
    /// methods and registers it under its superclass, which has to be
    /// registered already. Nothing changes unless the class can be registered.
    pub fn link_class(&mut self, template: &ClassTemplate) -> (res: Result<Class, ObjCError>)
        requires
            old(self).wf(),
        ensures
            final(self).wf(),
            res == link_result(old(self).classes(), template),
            final(self).objects() == old(self).objects(),
            final(self).pools() == old(self).pools(),
            match res {
                Ok(class) => {
                    let made = final(self).classes()[class.index as int];
                    &&& final(self).selectors() == interned_all(
                        old(self).selectors(),
                        template_names(template.instance_methods@) + template_names(
                            template.class_methods@,
                        ),
                    )
                    &&& final(self).classes().len() == old(self).classes().len() + 1
                    &&& final(self).classes().subrange(0, class.index as int) == old(
                        self,
                    ).classes()
                    &&& made.name@ == template.name@
                    &&& match template.superclass {
                        None => made.superclass is None,
                        Some(name) => made.superclass is Some && old(
                            self,
                        ).classes()[made.superclass.unwrap().index as int].name@ == name@,
                    }
                    &&& table_matches(
                        final(self).selectors(),
                        made.instance_methods@,
                        template.instance_methods@,
                    )
                    &&& table_matches(
                        final(self).selectors(),
                        made.class_methods@,
                        template.class_methods@,
                    )
                    &&& made.protocols@ == template.protocols@
                },
                Err(_) => *final(self) == *old(self),
            },
    {
        if self.get_known_class(template.name.as_slice()).is_some() {
            return Err(ObjCError::DuplicateClass);
        }
        let superclass = match &template.superclass {
            None => {
                if self.classes.len() != 0 {
                    return Err(ObjCError::SecondRoot);
                }
                None
            },
            Some(name) => match self.get_known_class(name.as_slice()) {
                Some(class) => Some(class),
                None => {
                    return Err(ObjCError::UnknownClass);
                },
            },
        };
        let ghost first = template_names(template.instance_methods@);
        let ghost second = template_names(template.class_methods@);
        let instance_methods = self.link_methods(&template.instance_methods);
        let ghost mid = self.selectors();
        let class_methods = self.link_methods(&template.class_methods);
        proof {
            lemma_interned_all_append(old(self).selectors(), first, second);
            assert forall|i: int| 0 <= i < instance_methods@.len() implies self.selectors()[(
            #[trigger] instance_methods@[i]).selector.index as int]
                == template.instance_methods@[i].selector@ by {
                assert(mid[instance_methods@[i].selector.index as int]
                    == template.instance_methods@[i].selector@);
            }
        }
        let mut protocols: Vec<Protocol> = Vec::new();
        let mut k: usize = 0;
        while k < template.protocols.len()
            invariant
                k <= template.protocols@.len(),
                protocols@ == template.protocols@.subrange(0, k as int),
            decreases template.protocols@.len() - k,
        {
            protocols.push(template.protocols[k]);
            assert(protocols@ =~= template.protocols@.subrange(0, k + 1));
            k += 1;
        }
        assert(template.protocols@.subrange(0, template.protocols@.len() as int)
            =~= template.protocols@);
        let descriptor = ClassDescriptor {
            name: crate::bytes::bytes_to_vec(template.name.as_slice()),
            superclass,
            instance_methods,
            class_methods,
            protocols,
        };
        let ghost before = self.classes();
        let count = self.classes.len();
        let registered = self.register_class(descriptor);
        proof {
            assert(count == before.len());
            assert(registered is Ok);
            assert(registered.unwrap().index == before.len());
            assert(before == old(self).classes());
            assert(self.classes().subrange(0, before.len() as int) =~= before);
        }
        registered
    }
}

/// Interning two lists of names one after the other is interning the two
/// as one list.
pub proof fn lemma_interned_all_append(
    selectors: Seq<Seq<u8>>,
    first: Seq<Seq<u8>>,
    second: Seq<Seq<u8>>,
)
    ensures
        interned_all(interned_all(selectors, first), second) == interned_all(
            selectors,
            first + second,
        ),
    decreases second.len(),
{
    if second.len() == 0 {
        assert(first + second =~= first);
    } else {
        lemma_interned_all_append(selectors, first, second.drop_last());
        assert((first + second).drop_last() =~= first + second.drop_last());
        assert((first + second).last() == second.last());
    }
}

/// Whether a list of protocols holds the given one.
pub fn adopts(list: &[Protocol], protocol: Protocol) -> (res: bool)
    ensures
        res == list@.contains(protocol),
{
    let mut k: usize = 0;
    while k < list.len()
        invariant
            k <= list@.len(),
            forall|j: int| 0 <= j < k ==> list@[j] != protocol,
        decreases list@.len() - k,
    {
        if list[k] == protocol {
            assert(list@[k as int] == protocol);
            return true;
        }
        k += 1;
    }
    false
}

/// First entry of a method table for the selector.
pub fn find_in_table(table: &[Method], selector: SEL) -> (res: Option<Method>)
    ensures
        res == find_method(table@, selector),
{
    let mut i: usize = 0;
    assert(table@.subrange(0, table@.len() as int) =~= table@);
    while i < table.len()
        invariant
            i <= table@.len(),
            find_method(table@, selector) == find_method(
                table@.subrange(i as int, table@.len() as int),
                selector,
            ),
        decreases table@.len() - i,
    {
        let rest = Ghost(table@.subrange(i as int, table@.len() as int));
        assert(rest@.drop_first() =~= table@.subrange(i + 1, table@.len() as int));
        assert(rest@[0] == table@[i as int]);
        if table[i].selector == selector {
            return Some(table[i]);
        }
        i += 1;
    }
    None
}


/// A retain followed by a release is answered with "not the last reference"
/// and leaves every object, with its count, as it was.
pub proof fn lemma_retain_then_release<H>(objects: Map<u32, ObjectEntry<H>>, addr: u32)
    requires
        retain_result(objects, addr) is Ok,
    ensures
        release_result(retained(objects, addr), addr) == Ok::<bool, ObjCError>(false),
        released(retained(objects, addr), addr) == objects,
{
    assert(released(retained(objects, addr), addr) =~= objects);
}

/// No count goes below zero: a release of an object whose count is zero is
/// refused and changes nothing.
pub proof fn lemma_release_stops_at_zero<H>(objects: Map<u32, ObjectEntry<H>>, addr: u32)
    requires
        objects.contains_key(addr),
        objects[addr].refcount == 0,
    ensures
        release_result(objects, addr) == Err::<bool, ObjCError>(ObjCError::OverRelease),
        released(objects, addr) == objects,
{
}

/// A release changes no object but the one released, and takes exactly one
/// from that object's count.
pub proof fn lemma_release_takes_one<H>(objects: Map<u32, ObjectEntry<H>>, addr: u32, other: u32)
    requires
        release_result(objects, addr) is Ok,
    ensures
        released(objects, addr).dom() == objects.dom(),
        released(objects, addr)[addr].refcount == objects[addr].refcount - 1,
        other != addr && objects.contains_key(other) ==> released(objects, addr)[other]
            == objects[other],
{
    assert(released(objects, addr).dom() =~= objects.dom());
}

/// Draining a pool leaves alone every object that is not a member of it.
pub proof fn lemma_drain_spares_others<H>(
    objects: Map<u32, ObjectEntry<H>>,
    members: Seq<id>,
    addr: u32,
)
    requires
        forall|k: int| 0 <= k < members.len() ==> (#[trigger] members[k]).addr != addr,
    ensures
        drained(objects, members).contains_key(addr) == objects.contains_key(addr),
        objects.contains_key(addr) ==> drained(objects, members)[addr] == objects[addr],
    decreases members.len(),
{
    if members.len() > 0 {
        let next = released(objects, members[0].addr);
        assert(members[0].addr != addr);
        assert forall|k: int| 0 <= k < members.drop_first().len() implies (
        #[trigger] members.drop_first()[k]).addr != addr by {
            assert(members.drop_first()[k] == members[k + 1]);
        }
        lemma_drain_spares_others(next, members.drop_first(), addr);
    }
}

/// Pools are drained innermost first: while a pool that was pushed later is
/// in place, an earlier pool cannot be drained, and draining the later one
/// leaves the earlier one with the members it had.
pub proof fn lemma_pools_drain_innermost_first(pools: Seq<Seq<id>>, earlier: int, later: int)
    requires
        0 <= earlier < later < pools.len(),
    ensures
        drain_result(pools, earlier) == Err::<(), ObjCError>(ObjCError::NotTopPool),
        drain_result(pools, later) is Ok ==> pools.drop_last()[earlier] == pools[earlier],
{
}

/// A method that a class defines itself is what the selector resolves to for
/// that class, whatever its ancestors define.
pub proof fn lemma_override_wins(
    classes: Seq<ClassDescriptor>,
    class: Class,
    selector: SEL,
    class_side: bool,
    method: Method,
)
    requires
        find_method(table_of(classes, class, class_side), selector) == Some(method),
    ensures
        method_of(classes, class, selector, class_side) == Some(method),
{
}

/// A selector that a class does not define itself resolves to what it
/// resolves to for the superclass.
pub proof fn lemma_inherited(
    classes: Seq<ClassDescriptor>,
    class: Class,
    base: Class,
    selector: SEL,
    class_side: bool,
)
    requires
        find_method(table_of(classes, class, class_side), selector) is None,
        parent_of(classes, class) == Some(base),
    ensures
        method_of(classes, class, selector, class_side) == method_of(
            classes,
            base,
            selector,
            class_side,
        ),
{
}

impl<H> ObjC<H> {
    /// The class of every object is a class of the arena.
    pub proof fn lemma_class_of_object(&self, obj: id)
        requires
            self.wf(),
            self.is_object(obj),
        ensures
            self.valid_class(self.objects()[obj.addr].class),
    {
    }

    /// The chain of every class ends at the root, the first class registered.
    pub proof fn lemma_chain_ends_at_root(&self, class: Class)
        requires
            self.wf(),
            self.valid_class(class),
        ensures
            self.ancestors(class).len() > 0,
            self.ancestors(class).last() == (Class { index: 0 }),
            self.ancestors(class).contains(Class { index: 0 }),
            self.ancestors(class)[0] == class,
        decreases class.index,
    {
        match parent_of(self.classes(), class) {
            Some(p) => {
                self.lemma_chain_ends_at_root(p);
                let rest = self.ancestors(p);
                assert(self.ancestors(class) =~= seq![class] + rest);
                assert(self.ancestors(class).last() == rest.last());
            },
            None => {
                assert(self.ancestors(class) =~= seq![class]);
                assert(class.index == 0);
            },
        }
        let chain = self.ancestors(class);
        assert(chain[chain.len() - 1] == Class { index: 0 });
    }

    /// Every object is of the kind of the root class.
    pub proof fn lemma_kind_of_root(&self, obj: id)
        requires
            self.wf(),
            self.is_object(obj),
        ensures
            self.ancestors(self.objects()[obj.addr].class).contains(Class { index: 0 }),
    {
        self.lemma_chain_ends_at_root(self.objects()[obj.addr].class);
    }

}

} // verus!
