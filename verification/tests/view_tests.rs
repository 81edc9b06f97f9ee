use touchhle::environment::Environment;
use touchhle::frameworks::foundation::ns_object;
use touchhle::frameworks::uikit::ui_view;
use touchhle::frameworks::uikit::ui_view::{LayerAction, ViewError};
use touchhle::mem::{MemError, Ptr};
use touchhle::objc::{id, Class, ClassDescriptor, ObjCError};

struct World {
    env: Environment,
    view_class: Class,
    layer_class: Class,
}

fn world() -> World {
    let mut env = Environment::new();
    let root = env
        .objc
        .register_class(ClassDescriptor {
            name: b"NSObject".to_vec(),
            superclass: None,
            instance_methods: Vec::new(),
            class_methods: Vec::new(),
            protocols: Vec::new(),
        })
        .unwrap();
    let mut class = |name: &[u8]| {
        env.objc
            .register_class(ClassDescriptor {
                name: name.to_vec(),
                superclass: Some(root),
                instance_methods: Vec::new(),
                class_methods: Vec::new(),
                protocols: Vec::new(),
            })
            .unwrap()
    };
    let view_class = class(b"UIView");
    let layer_class = class(b"CALayer");
    World { env, view_class, layer_class }
}

/// A view with a layer of its own, initialized.
fn view(w: &mut World) -> (id, id) {
    let layer = ns_object::alloc_with_zone(&mut w.env, w.layer_class).unwrap();
    let view = ui_view::alloc_with_zone(&mut w.env, w.view_class).unwrap();
    assert_eq!(ui_view::init(&mut w.env, view, layer).map(|v| v.to_bits()), Ok(view.to_bits()));
    (view, layer)
}

fn bits(list: &[id]) -> Vec<u32> {
    list.iter().map(|o| o.to_bits()).collect()
}

fn actions(list: &[LayerAction]) -> Vec<(u32, u32)> {
    list.iter()
        .map(|a| match a {
            LayerAction::RemoveFromSuperlayer { layer } => (0, layer.to_bits()),
            LayerAction::AddSublayer { layer, sublayer } => (layer.to_bits(), sublayer.to_bits()),
        })
        .collect()
}

fn count(w: &World, obj: id) -> u32 {
    w.env.objc.get_refcount(obj).unwrap()
}

#[test]
fn new_view_has_its_layer_and_is_listed() {
    let mut w = world();
    let (a, layer) = view(&mut w);
    assert_eq!(ui_view::layer(&w.env, a).map(|l| l.to_bits()), Ok(layer.to_bits()));
    assert_eq!(ui_view::superview(&w.env, a).map(|s| s.to_bits()), Ok(0));
    assert_eq!(ui_view::subviews(&w.env, a).map(|s| bits(&s)), Ok(vec![]));
    assert_eq!(bits(&w.env.framework_state.uikit.ui_view.views), vec![a.to_bits()]);
    assert_eq!(
        ui_view::init(&mut w.env, layer, layer).map(|v| v.to_bits()),
        Err(ViewError::NotAView)
    );
    assert_eq!(
        ui_view::layer(&w.env, Ptr::null()).map(|l| l.to_bits()),
        Err(ViewError::ObjC(ObjCError::NotFound))
    );
}

#[test]
fn added_subview_is_retained_and_placed_in_front() {
    let mut w = world();
    let (parent, parent_layer) = view(&mut w);
    let (a, a_layer) = view(&mut w);
    let (b, b_layer) = view(&mut w);
    let done = ui_view::add_subview(&mut w.env, parent, a).unwrap();
    assert_eq!(actions(&done), vec![(parent_layer.to_bits(), a_layer.to_bits())]);
    let done = ui_view::add_subview(&mut w.env, parent, b).unwrap();
    assert_eq!(actions(&done), vec![(parent_layer.to_bits(), b_layer.to_bits())]);
    assert_eq!(ui_view::subviews(&w.env, parent).map(|s| bits(&s)), Ok(bits(&[a, b])));
    assert_eq!(ui_view::superview(&w.env, a).map(|s| s.to_bits()), Ok(parent.to_bits()));
    assert_eq!((count(&w, a), count(&w, b), count(&w, parent)), (2, 2, 1));
    // Adding a subview again brings it to the front and takes no reference.
    let done = ui_view::add_subview(&mut w.env, parent, a).unwrap();
    assert_eq!(
        actions(&done),
        vec![(0, a_layer.to_bits()), (parent_layer.to_bits(), a_layer.to_bits())]
    );
    assert_eq!(ui_view::subviews(&w.env, parent).map(|s| bits(&s)), Ok(bits(&[b, a])));
    assert_eq!(count(&w, a), 2);
    // Nil is passed over.
    assert_eq!(ui_view::add_subview(&mut w.env, parent, Ptr::null()).map(|d| d.len()), Ok(0));
}

#[test]
fn subview_moves_from_one_superview_to_another() {
    let mut w = world();
    let (first, first_layer) = view(&mut w);
    let (second, second_layer) = view(&mut w);
    let (a, a_layer) = view(&mut w);
    let _ = first_layer;
    ui_view::add_subview(&mut w.env, first, a).unwrap();
    let done = ui_view::add_subview(&mut w.env, second, a).unwrap();
    assert_eq!(
        actions(&done),
        vec![(0, a_layer.to_bits()), (second_layer.to_bits(), a_layer.to_bits())]
    );
    assert_eq!(ui_view::subviews(&w.env, first).map(|s| bits(&s)), Ok(vec![]));
    assert_eq!(ui_view::subviews(&w.env, second).map(|s| bits(&s)), Ok(bits(&[a])));
    assert_eq!(ui_view::superview(&w.env, a).map(|s| s.to_bits()), Ok(second.to_bits()));
    assert_eq!(count(&w, a), 2);
}

#[test]
fn removed_subview_loses_the_reference_of_its_superview() {
    let mut w = world();
    let (parent, _) = view(&mut w);
    let (a, a_layer) = view(&mut w);
    ui_view::add_subview(&mut w.env, parent, a).unwrap();
    let (done, due) = ui_view::remove_from_superview(&mut w.env, a).unwrap();
    assert_eq!(actions(&done), vec![(0, a_layer.to_bits())]);
    assert!(!due);
    assert_eq!(count(&w, a), 1);
    assert_eq!(ui_view::superview(&w.env, a).map(|s| s.to_bits()), Ok(0));
    assert_eq!(ui_view::subviews(&w.env, parent).map(|s| bits(&s)), Ok(vec![]));
    // Without superview there is nothing to do.
    let (done, due) = ui_view::remove_from_superview(&mut w.env, a).unwrap();
    assert!(done.is_empty() && !due);
    assert_eq!(count(&w, a), 1);
}

#[test]
fn removal_of_the_last_reference_asks_for_teardown() {
    let mut w = world();
    let (parent, _) = view(&mut w);
    let (a, _) = view(&mut w);
    ui_view::add_subview(&mut w.env, parent, a).unwrap();
    ns_object::release(&mut w.env, a).unwrap();
    let (_, due) = ui_view::remove_from_superview(&mut w.env, a).unwrap();
    assert!(due);
    assert_eq!(count(&w, a), 0);
}

#[test]
fn view_functions_refuse_what_is_no_view() {
    let mut w = world();
    let (parent, _) = view(&mut w);
    let (a, _) = view(&mut w);
    let plain = ns_object::alloc_with_zone(&mut w.env, w.layer_class).unwrap();
    assert_eq!(
        ui_view::add_subview(&mut w.env, parent, plain).map(|d| d.len()),
        Err(ViewError::NotAView)
    );
    assert_eq!(
        ui_view::add_subview(&mut w.env, plain, a).map(|d| d.len()),
        Err(ViewError::NotAView)
    );
    assert_eq!(
        ui_view::add_subview(&mut w.env, parent, Ptr::from_bits(0x9000)).map(|d| d.len()),
        Err(ViewError::ObjC(ObjCError::NotFound))
    );
    assert_eq!(
        ui_view::bring_to_front(&mut w.env, parent, a).map(|d| d.len()),
        Err(ViewError::NotFound)
    );
    assert_eq!(
        ui_view::remove_from_superview(&mut w.env, plain).map(|d| d.1),
        Err(ViewError::NotAView)
    );
    assert_eq!(count(&w, a), 1);
    assert_eq!(ui_view::subviews(&w.env, parent).map(|s| bits(&s)), Ok(vec![]));
}

#[test]
fn view_that_is_being_torn_down_cannot_be_added() {
    let mut w = world();
    let (parent, _) = view(&mut w);
    let (a, _) = view(&mut w);
    ns_object::release(&mut w.env, a).unwrap();
    assert_eq!(
        ui_view::add_subview(&mut w.env, parent, a).map(|d| d.len()),
        Err(ViewError::ObjC(ObjCError::Deallocating))
    );
    assert_eq!(count(&w, a), 0);
}

#[test]
fn bring_to_front_reorders_and_names_the_layers() {
    let mut w = world();
    let (parent, parent_layer) = view(&mut w);
    let (a, a_layer) = view(&mut w);
    let (b, _) = view(&mut w);
    let (c, _) = view(&mut w);
    for v in [a, b, c] {
        ui_view::add_subview(&mut w.env, parent, v).unwrap();
    }
    let done = ui_view::bring_to_front(&mut w.env, parent, a).unwrap();
    assert_eq!(
        actions(&done),
        vec![(0, a_layer.to_bits()), (parent_layer.to_bits(), a_layer.to_bits())]
    );
    assert_eq!(ui_view::subviews(&w.env, parent).map(|s| bits(&s)), Ok(bits(&[b, c, a])));
}

#[test]
fn teardown_of_a_view_orphans_and_releases_its_subviews() {
    let mut w = world();
    let (parent, parent_layer) = view(&mut w);
    let (a, _) = view(&mut w);
    let (b, _) = view(&mut w);
    ui_view::add_subview(&mut w.env, parent, a).unwrap();
    ui_view::add_subview(&mut w.env, parent, b).unwrap();
    // `a` is held by the parent only, `b` also by its creator.
    ns_object::release(&mut w.env, a).unwrap();
    assert_eq!(
        ui_view::dealloc(&mut w.env, parent).map(|r| r.teardowns.len()),
        Err(ViewError::ObjC(ObjCError::StillReferenced))
    );
    assert_eq!(
        ui_view::dealloc(&mut w.env, a).map(|r| r.teardowns.len()),
        Err(ViewError::HasSuperview)
    );
    assert_eq!(ns_object::release(&mut w.env, parent), Ok(true));
    let report = ui_view::dealloc(&mut w.env, parent).unwrap();
    assert_eq!(bits(&report.teardowns), bits(&[parent_layer, a]));
    assert!(report.misused.is_empty());
    assert_eq!(ui_view::superview(&w.env, a).map(|s| s.to_bits()), Ok(0));
    assert_eq!(ui_view::superview(&w.env, b).map(|s| s.to_bits()), Ok(0));
    assert_eq!((count(&w, a), count(&w, b)), (0, 1));
    assert_eq!(
        ui_view::layer(&w.env, parent).map(|l| l.to_bits()),
        Err(ViewError::ObjC(ObjCError::NotFound))
    );
    assert_eq!(bits(&w.env.framework_state.uikit.ui_view.views), bits(&[b, a]));
    assert_eq!(w.env.mem.check_access(parent.to_bits(), 4), Err(MemError::UseAfterFree));
    // The subview whose count reached zero can be torn down in turn.
    let report = ui_view::dealloc(&mut w.env, a).unwrap();
    assert_eq!(report.teardowns.len(), 1);
    assert_eq!(bits(&w.env.framework_state.uikit.ui_view.views), bits(&[b]));
}

#[test]
fn teardown_of_an_unlisted_view_is_refused() {
    let mut w = world();
    let stray = ui_view::alloc_with_zone(&mut w.env, w.view_class).unwrap();
    ns_object::release(&mut w.env, stray).unwrap();
    assert_eq!(
        ui_view::dealloc(&mut w.env, stray).map(|r| r.teardowns.len()),
        Err(ViewError::NotFound)
    );
    assert_eq!(count(&w, stray), 0);
    let plain = ns_object::alloc_with_zone(&mut w.env, w.layer_class).unwrap();
    assert_eq!(
        ui_view::dealloc(&mut w.env, plain).map(|r| r.teardowns.len()),
        Err(ViewError::NotAView)
    );
}
