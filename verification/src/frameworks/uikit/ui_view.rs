//! `UIView`: what a view keeps on the host side, and the order of its
//! subviews.

use crate::environment::Environment;
use crate::frameworks::HostObject;
use crate::mem::Ptr;
use crate::objc::{
    drained, id, misused_members, nil, release_result, released, teardowns_due, Class,
    DrainReport, ObjCError, ObjectEntry,
};
use core::marker::PhantomData;
use vstd::prelude::*;

verus! {

/// The state of the class.
pub struct State {
    /// Every view that has been initialized and not yet torn down. The list
    /// holds no references.
    pub views: Vec<id>,
}

/// The host side of a view.
pub struct UIViewHostObject {
    /// The view's layer.
    pub layer: id,
    /// The subviews, from the one at the back to the one in front. The view
    /// holds a reference to each.
    pub subviews: Vec<id>,
    /// The superview, to which the view holds no reference.
    pub superview: id,
    pub clears_context_before_drawing: bool,
    pub user_interaction_enabled: bool,
}

impl Default for UIViewHostObject {
    /// A view without layer, subviews or superview, that clears its context
    /// before drawing and takes part in user interaction.
    fn default() -> (host_object: UIViewHostObject)
        ensures
            host_object.layer@ == 0,
            host_object.subviews@ == Seq::<id>::empty(),
            host_object.superview@ == 0,
            host_object.clears_context_before_drawing,
            host_object.user_interaction_enabled,
    {
        UIViewHostObject {
            layer: nil(),
            subviews: Vec::new(),
            superview: nil(),
            clears_context_before_drawing: true,
            user_interaction_enabled: true,
        }
    }
}

/// Why a function on views failed.
#[derive(Clone, Copy, Debug, PartialEq, Eq, Structural)]
pub enum ViewError {
    /// The view is not among the subviews, or not in the list of views.
    NotFound,
    /// The object is no view.
    NotAView,
    /// The view still has a superview.
    HasSuperview,
    /// The runtime refused the operation.
    ObjC(ObjCError),
}

/// Whether `i` is the first place of a list at which an object stands.
pub open spec fn is_first_place(list: Seq<id>, obj: id, i: int) -> bool {
    &&& 0 <= i < list.len()
    &&& list[i]@ == obj@
    &&& forall|j: int| 0 <= j < i ==> (#[trigger] list[j])@ != obj@
}

/// The first place of a list at which an object stands.
pub open spec fn place_of(list: Seq<id>, obj: id) -> Option<int> {
    if exists|i: int| is_first_place(list, obj, i) {
        Some(choose|i: int| is_first_place(list, obj, i))
    } else {
        None
    }
}

/// An object stands first at one place at most.
pub proof fn lemma_place_of(list: Seq<id>, obj: id, i: int)
    requires
        is_first_place(list, obj, i),
    ensures
        place_of(list, obj) == Some(i),
{
    let c = choose|c: int| is_first_place(list, obj, c);
    if c < i {
        assert(list[c]@ != obj@);
    } else if c > i {
        assert(list[i]@ != obj@);
    }
}

/// The first place of a list at which an object stands.
pub fn position(list: &[id], obj: id) -> (res: Option<usize>)
    ensures
        match res {
            Some(i) => place_of(list@, obj) == Some(i as int) && i < list@.len(),
            None => place_of(list@, obj) is None,
        },
{
    let mut i: usize = 0;
    while i < list.len()
        invariant
            i <= list@.len(),
            forall|j: int| 0 <= j < i ==> (#[trigger] list@[j])@ != obj@,
        decreases list@.len() - i,
    {
        if list[i].same(obj) {
            proof {
                lemma_place_of(list@, obj, i as int);
            }
            return Some(i);
        }
        i += 1;
    }
    proof {
        if exists|c: int| is_first_place(list@, obj, c) {
            let c = choose|c: int| is_first_place(list@, obj, c);
            assert(list@[c]@ != obj@);
        }
    }
    None
}

/// A list with the first occurrence of an object moved to its end, which is
/// the front of the view.
pub open spec fn brought_to_front(list: Seq<id>, obj: id) -> Option<Seq<id>> {
    match place_of(list, obj) {
        Some(i) => Some(list.remove(i).push(obj)),
        None => None,
    }
}

/// A list without the first occurrence of an object, the order of the others
/// kept.
pub open spec fn without(list: Seq<id>, obj: id) -> Option<Seq<id>> {
    match place_of(list, obj) {
        Some(i) => Some(list.remove(i)),
        None => None,
    }
}

/// A list without the first occurrence of an object, the last element put in
/// its place.
pub open spec fn swapped_out(list: Seq<id>, obj: id) -> Option<Seq<id>> {
    match place_of(list, obj) {
        Some(i) => Some(
            if i == list.len() - 1 {
                list.drop_last()
            } else {
                list.update(i, list.last()).drop_last()
            },
        ),
        None => None,
    }
}

/// `-bringSubviewToFront:`, as far as the list of subviews goes: the subview
/// becomes the last of the list.
pub fn bring_subview_to_front(host_object: &mut UIViewHostObject, subview: id) -> (res: Result<
    (),
    ViewError,
>)
    ensures
        final(host_object).layer == old(host_object).layer,
        final(host_object).superview == old(host_object).superview,
        final(host_object).clears_context_before_drawing == old(
            host_object,
        ).clears_context_before_drawing,
        final(host_object).user_interaction_enabled == old(host_object).user_interaction_enabled,
        match brought_to_front(old(host_object).subviews@, subview) {
            Some(list) => res is Ok && final(host_object).subviews@ == list,
            None => res == Err::<(), ViewError>(ViewError::NotFound) && final(host_object).subviews@
                == old(host_object).subviews@,
        },
{
    match position(host_object.subviews.as_slice(), subview) {
        Some(idx) => {
            host_object.subviews.remove(idx);
            host_object.subviews.push(subview);
            assert(host_object.subviews@ =~= old(host_object).subviews@.remove(idx as int).push(
                subview,
            ));
            Ok(())
        },
        None => Err(ViewError::NotFound),
    }
}

/// `-addSubview:`, as far as the list of subviews goes: the view becomes the
/// last of the list.
pub fn append_subview(host_object: &mut UIViewHostObject, view: id)
    ensures
        final(host_object).layer == old(host_object).layer,
        final(host_object).superview == old(host_object).superview,
        final(host_object).clears_context_before_drawing == old(
            host_object,
        ).clears_context_before_drawing,
        final(host_object).user_interaction_enabled == old(host_object).user_interaction_enabled,
        final(host_object).subviews@ == old(host_object).subviews@.push(view),
{
    host_object.subviews.push(view);
}

/// `-removeFromSuperview`, as far as the superview's list of subviews goes:
/// the view leaves the list.
pub fn remove_subview(host_object: &mut UIViewHostObject, view: id) -> (res: Result<(), ViewError>)
    ensures
        final(host_object).layer == old(host_object).layer,
        final(host_object).superview == old(host_object).superview,
        final(host_object).clears_context_before_drawing == old(
            host_object,
        ).clears_context_before_drawing,
        final(host_object).user_interaction_enabled == old(host_object).user_interaction_enabled,
        match without(old(host_object).subviews@, view) {
            Some(list) => res is Ok && final(host_object).subviews@ == list,
            None => res == Err::<(), ViewError>(ViewError::NotFound) && final(host_object).subviews@
                == old(host_object).subviews@,
        },
{
    match position(host_object.subviews.as_slice(), view) {
        Some(idx) => {
            host_object.subviews.remove(idx);
            Ok(())
        },
        None => Err(ViewError::NotFound),
    }
}

/// `-init`, as far as the list of views goes: the view joins the list.
pub fn register_view(state: &mut State, view: id)
    ensures
        final(state).views@ == old(state).views@.push(view),
{
    state.views.push(view);
}

/// `-dealloc`, as far as the list of views goes: the view leaves the list,
/// and the last view of the list takes its place.
pub fn unregister_view(state: &mut State, view: id) -> (res: Result<(), ViewError>)
    ensures
        match swapped_out(old(state).views@, view) {
            Some(list) => res is Ok && final(state).views@ == list,
            None => res == Err::<(), ViewError>(ViewError::NotFound) && final(state).views@ == old(
                state,
            ).views@,
        },
{
    match position(state.views.as_slice(), view) {
        Some(idx) => {
            state.views.swap_remove(idx);
            proof {
                let list = old(state).views@;
                if idx == list.len() - 1 {
                    assert(state.views@ =~= list.drop_last());
                } else {
                    assert(state.views@ =~= list.update(idx as int, list.last()).drop_last());
                }
            }
            Ok(())
        },
        None => Err(ViewError::NotFound),
    }
}

/// The order in which the subviews of a view are tried for a touch: the one
/// in front first.
pub fn hit_test_order(host_object: &UIViewHostObject) -> (order: Vec<id>)
    ensures
        order@ == host_object.subviews@.reverse(),
{
    let n = host_object.subviews.len();
    let mut order: Vec<id> = Vec::new();
    let mut i: usize = 0;
    while i < n
        invariant
            i <= n,
            n == host_object.subviews@.len(),
            order@.len() == i,
            forall|k: int| 0 <= k < i ==> order@[k] == host_object.subviews@[n - 1 - k],
        decreases n - i,
    {
        order.push(host_object.subviews[n - 1 - i]);
        i += 1;
    }
    assert(order@ =~= host_object.subviews@.reverse());
    order
}


/// What a view keeps on the host side, as a value of specifications.
pub struct ViewModel {
    pub layer: id,
    pub subviews: Seq<id>,
    pub superview: id,
    pub clears_context_before_drawing: bool,
    pub user_interaction_enabled: bool,
}

/// The host side of an object as specifications see it: a view by what it
/// keeps, anything else as it is.
pub enum Payload {
    View(ViewModel),
    Other(HostObject),
}

/// An object as specifications of the view hierarchy see it.
pub struct Entry {
    pub class: Class,
    pub refcount: u32,
    pub payload: Payload,
}

/// A message to a layer that the caller is to send.
#[derive(Clone, Copy, Debug)]
pub enum LayerAction {
    /// `[layer removeFromSuperlayer]`
    RemoveFromSuperlayer { layer: id },
    /// `[layer addSublayer:sublayer]`
    AddSublayer { layer: id, sublayer: id },
}

impl UIViewHostObject {
    /// What the view keeps, as a value of specifications.
    pub open spec fn model(&self) -> ViewModel {
        ViewModel {
            layer: self.layer,
            subviews: self.subviews@,
            superview: self.superview,
            clears_context_before_drawing: self.clears_context_before_drawing,
            user_interaction_enabled: self.user_interaction_enabled,
        }
    }
}

/// The host side of an object as specifications of the view hierarchy see it.
pub open spec fn payload_of(host_object: HostObject) -> Payload {
    match host_object {
        HostObject::View(view) => Payload::View(view.model()),
        other => Payload::Other(other),
    }
}

/// An object of the runtime as specifications of the view hierarchy see it.
pub open spec fn entry_of(entry: ObjectEntry<HostObject>) -> Entry {
    Entry { class: entry.class, refcount: entry.refcount, payload: payload_of(entry.host_object) }
}

/// The objects of the runtime as specifications of the view hierarchy see
/// them.
pub open spec fn hierarchy(objects: Map<u32, ObjectEntry<HostObject>>) -> Map<u32, Entry> {
    Map::new(|a: u32| objects.contains_key(a), |a: u32| entry_of(objects[a]))
}

/// What a view keeps, where the object is a view.
pub open spec fn model_at(h: Map<u32, Entry>, obj: id) -> Result<ViewModel, ViewError> {
    if !h.contains_key(obj.addr) {
        Err(ViewError::ObjC(ObjCError::NotFound))
    } else {
        match h[obj.addr].payload {
            Payload::View(model) => Ok(model),
            Payload::Other(_) => Err(ViewError::NotAView),
        }
    }
}

/// The hierarchy with what one view keeps replaced.
pub open spec fn with_model(h: Map<u32, Entry>, obj: id, model: ViewModel) -> Map<u32, Entry> {
    h.insert(
        obj.addr,
        Entry {
            class: h[obj.addr].class,
            refcount: h[obj.addr].refcount,
            payload: Payload::View(model),
        },
    )
}

/// The hierarchy with the count of one object replaced.
pub open spec fn with_refcount(h: Map<u32, Entry>, obj: id, refcount: int) -> Map<u32, Entry> {
    h.insert(
        obj.addr,
        Entry { class: h[obj.addr].class, refcount: refcount as u32, payload: h[obj.addr].payload },
    )
}

/// What a view keeps, with other subviews.
pub open spec fn with_subviews(model: ViewModel, subviews: Seq<id>) -> ViewModel {
    ViewModel {
        layer: model.layer,
        subviews,
        superview: model.superview,
        clears_context_before_drawing: model.clears_context_before_drawing,
        user_interaction_enabled: model.user_interaction_enabled,
    }
}

/// What a view keeps, with another superview.
pub open spec fn with_superview(model: ViewModel, superview: id) -> ViewModel {
    ViewModel {
        layer: model.layer,
        subviews: model.subviews,
        superview,
        clears_context_before_drawing: model.clears_context_before_drawing,
        user_interaction_enabled: model.user_interaction_enabled,
    }
}

/// The null object.
pub open spec fn nil_object() -> id {
    Ptr { addr: 0, pointee: PhantomData }
}

/// A copy of what a view keeps.
fn copy_view(env: &Environment, obj: id) -> (res: Result<UIViewHostObject, ViewError>)
    ensures
        match res {
            Ok(view) => model_at(hierarchy(env.objc.objects()), obj) == Ok::<ViewModel, ViewError>(
                view.model(),
            ),
            Err(e) => model_at(hierarchy(env.objc.objects()), obj) == Err::<ViewModel, ViewError>(
                e,
            ),
        },
{
    match env.objc.borrow(obj) {
        Ok(host_object) => match host_object {
            HostObject::View(view) => {
                let mut subviews: Vec<id> = Vec::new();
                let mut i: usize = 0;
                while i < view.subviews.len()
                    invariant
                        i <= view.subviews@.len(),
                        subviews@ == view.subviews@.subrange(0, i as int),
                    decreases view.subviews@.len() - i,
                {
                    subviews.push(view.subviews[i]);
                    assert(subviews@ =~= view.subviews@.subrange(0, i + 1));
                    i += 1;
                }
                assert(view.subviews@.subrange(0, view.subviews@.len() as int)
                    =~= view.subviews@);
                Ok(
                    UIViewHostObject {
                        layer: view.layer,
                        subviews,
                        superview: view.superview,
                        clears_context_before_drawing: view.clears_context_before_drawing,
                        user_interaction_enabled: view.user_interaction_enabled,
                    },
                )
            },
            _ => Err(ViewError::NotAView),
        },
        Err(e) => Err(ViewError::ObjC(e)),
    }
}

/// Puts what a view keeps in the place of what it kept.
fn store_view(env: &mut Environment, obj: id, view: UIViewHostObject)
    requires
        old(env).wf(),
        old(env).objc.is_object(obj),
    ensures
        final(env).wf(),
        final(env).kept_but_objects(old(env)),
        final(env).mem == old(env).mem,
        hierarchy(final(env).objc.objects()) == with_model(
            hierarchy(old(env).objc.objects()),
            obj,
            view.model(),
        ),
{
    let ghost model = view.model();
    let replaced = env.objc.replace_host_object(obj, HostObject::View(view));
    assert(hierarchy(env.objc.objects()) =~= with_model(
        hierarchy(old(env).objc.objects()),
        obj,
        model,
    ));
}

/// What `-bringSubviewToFront:` gives: the subview becomes the last of the
/// view's subviews, and its layer is to be taken out of its superlayer and
/// added to the view's layer again.
pub open spec fn brought(h: Map<u32, Entry>, this: id, subview: id) -> Result<
    (Map<u32, Entry>, Seq<LayerAction>),
    ViewError,
> {
    match model_at(h, this) {
        Err(e) => Err(e),
        Ok(view) => match brought_to_front(view.subviews, subview) {
            None => Err(ViewError::NotFound),
            Some(list) => match model_at(h, subview) {
                Err(e) => Err(e),
                Ok(front) => Ok(
                    (
                        with_model(h, this, with_subviews(view, list)),
                        seq![
                            LayerAction::RemoveFromSuperlayer { layer: front.layer },
                            LayerAction::AddSublayer { layer: view.layer, sublayer: front.layer },
                        ],
                    ),
                ),
            },
        },
    }
}

/// `-bringSubviewToFront:`. Answers the messages that are to be sent to the
/// layers.
pub fn bring_to_front(env: &mut Environment, this: id, subview: id) -> (res: Result<
    Vec<LayerAction>,
    ViewError,
>)
    requires
        old(env).wf(),
    ensures
        final(env).wf(),
        final(env).kept_but_objects(old(env)),
        final(env).mem == old(env).mem,
        match brought(hierarchy(old(env).objc.objects()), this, subview) {
            Ok((h, actions)) => res is Ok && res.unwrap()@ == actions && hierarchy(
                final(env).objc.objects(),
            ) == h,
            Err(e) => res == Err::<Vec<LayerAction>, ViewError>(e) && final(env).objc.objects()
                == old(env).objc.objects(),
        },
{
    let mut view = copy_view(env, this)?;
    let layer = view.layer;
    bring_subview_to_front(&mut view, subview)?;
    let front = copy_view(env, subview)?;
    store_view(env, this, view);
    let mut actions: Vec<LayerAction> = Vec::new();
    actions.push(LayerAction::RemoveFromSuperlayer { layer: front.layer });
    actions.push(LayerAction::AddSublayer { layer, sublayer: front.layer });
    assert(actions@ =~= seq![
        LayerAction::RemoveFromSuperlayer { layer: front.layer },
        LayerAction::AddSublayer { layer, sublayer: front.layer },
    ]);
    Ok(actions)
}


/// What `-removeFromSuperview` gives: the view has no superview any more,
/// it is no longer among the subviews of what was its superview, and the
/// reference that the superview held to it is dropped. Answered are the
/// hierarchy, the messages for the layers, and whether the view's count has
/// reached zero. A view without superview is left as it is.
pub open spec fn removed(h: Map<u32, Entry>, this: id) -> Result<
    (Map<u32, Entry>, Seq<LayerAction>, bool),
    ViewError,
> {
    match model_at(h, this) {
        Err(e) => Err(e),
        Ok(view) => if view.superview@ == 0 {
            Ok((h, Seq::empty(), false))
        } else {
            let h1 = with_model(h, this, with_superview(view, nil_object()));
            match model_at(h1, view.superview) {
                Err(e) => Err(e),
                Ok(parent) => match without(parent.subviews, this) {
                    None => Err(ViewError::NotFound),
                    Some(list) => {
                        let h2 = with_model(h1, view.superview, with_subviews(parent, list));
                        if h2[this.addr].refcount == 0 {
                            Err(ViewError::ObjC(ObjCError::OverRelease))
                        } else {
                            Ok(
                                (
                                    with_refcount(h2, this, h2[this.addr].refcount - 1),
                                    seq![LayerAction::RemoveFromSuperlayer { layer: view.layer }],
                                    h2[this.addr].refcount == 1,
                                ),
                            )
                        }
                    },
                },
            }
        },
    }
}

/// `-removeFromSuperview`. Answers the messages that are to be sent to the
/// layers, and whether `dealloc` is to be sent to the view.
pub fn remove_from_superview(env: &mut Environment, this: id) -> (res: Result<
    (Vec<LayerAction>, bool),
    ViewError,
>)
    requires
        old(env).wf(),
    ensures
        final(env).wf(),
        final(env).kept_but_objects(old(env)),
        final(env).mem == old(env).mem,
        match removed(hierarchy(old(env).objc.objects()), this) {
            Ok((h, actions, due)) => res is Ok && res.unwrap().0@ == actions && res.unwrap().1
                == due && hierarchy(final(env).objc.objects()) == h,
            Err(e) => res == Err::<(Vec<LayerAction>, bool), ViewError>(e) && final(env).objc.objects() == old(env).objc.objects(),
        },
{
    let ghost h = hierarchy(env.objc.objects());
    let mut view = copy_view(env, this)?;
    let superview = view.superview;
    let layer = view.layer;
    if superview.is_null() {
        return Ok((Vec::new(), false));
    }
    view.superview = nil();
    let ghost h1 = with_model(h, this, view.model());
    assert(view.model() == with_superview(model_at(h, this).unwrap(), nil_object()));
    let mut parent = if superview.same(this) {
        let mut subviews: Vec<id> = Vec::new();
        let mut i: usize = 0;
        while i < view.subviews.len()
            invariant
                i <= view.subviews@.len(),
                subviews@ == view.subviews@.subrange(0, i as int),
            decreases view.subviews@.len() - i,
        {
            subviews.push(view.subviews[i]);
            assert(subviews@ =~= view.subviews@.subrange(0, i + 1));
            i += 1;
        }
        assert(view.subviews@.subrange(0, view.subviews@.len() as int) =~= view.subviews@);
        UIViewHostObject {
            layer: view.layer,
            subviews,
            superview: view.superview,
            clears_context_before_drawing: view.clears_context_before_drawing,
            user_interaction_enabled: view.user_interaction_enabled,
        }
    } else {
        copy_view(env, superview)?
    };
    assert(model_at(h1, superview) == Ok::<ViewModel, ViewError>(parent.model()));
    let ghost before = parent.model();
    remove_subview(&mut parent, this)?;
    assert(parent.model() == with_subviews(before, without(before.subviews, this).unwrap()));
    match env.objc.get_refcount(this) {
        Ok(count) => {
            if count == 0 {
                return Err(ViewError::ObjC(ObjCError::OverRelease));
            }
        },
        Err(e) => {
            return Err(ViewError::ObjC(e));
        },
    }
    let ghost count = env.objc.objects()[this.addr].refcount;
    assert(h[this.addr].refcount == count);
    store_view(env, this, view);
    store_view(env, superview, parent);
    let ghost stored = env.objc.objects();
    proof {
        assert(hierarchy(stored).contains_key(this.addr));
        assert(hierarchy(stored)[this.addr].refcount == count);
        assert(stored.contains_key(this.addr));
        assert(entry_of(stored[this.addr]).refcount == count);
    }
    let released = env.objc.release(this);
    proof {
        assert(released is Ok);
        assert(hierarchy(env.objc.objects()) =~= with_refcount(
            hierarchy(stored),
            this,
            hierarchy(stored)[this.addr].refcount - 1,
        ));
    }
    let mut actions: Vec<LayerAction> = Vec::new();
    actions.push(LayerAction::RemoveFromSuperlayer { layer });
    assert(actions@ =~= seq![LayerAction::RemoveFromSuperlayer { layer }]);
    match released {
        Ok(due) => Ok((actions, due)),
        Err(e) => Err(ViewError::ObjC(e)),
    }
}


/// What `-addSubview:` gives. Nil is passed over. A view that is a subview
/// of this view already is brought to the front. Any other view is
/// referenced once more, taken out of its superview, made a subview of this
/// view, in front of the others, and its layer is to be added to this view's
/// layer.
pub open spec fn added(h: Map<u32, Entry>, this: id, view: id) -> Result<
    (Map<u32, Entry>, Seq<LayerAction>),
    ViewError,
> {
    if view@ == 0 {
        Ok((h, Seq::empty()))
    } else {
        match model_at(h, view) {
            Err(e) => Err(e),
            Ok(child) => if child.superview@ == this@ {
                brought(h, this, view)
            } else {
                match model_at(h, this) {
                    Err(e) => Err(e),
                    Ok(_) => if h[view.addr].refcount == 0 {
                        Err(ViewError::ObjC(ObjCError::Deallocating))
                    } else if h[view.addr].refcount == u32::MAX {
                        Err(ViewError::ObjC(ObjCError::RefcountOverflow))
                    } else {
                        match removed(with_refcount(h, view, h[view.addr].refcount + 1), view) {
                            Err(e) => Err(e),
                            Ok((h2, actions, _)) => {
                                let child2 = model_at(h2, view).unwrap();
                                let h3 = with_model(h2, view, with_superview(child2, this));
                                let parent = model_at(h3, this).unwrap();
                                Ok(
                                    (
                                        with_model(
                                            h3,
                                            this,
                                            with_subviews(parent, parent.subviews.push(view)),
                                        ),
                                        actions + seq![
                                            LayerAction::AddSublayer {
                                                layer: parent.layer,
                                                sublayer: child2.layer,
                                            },
                                        ],
                                    ),
                                )
                            },
                        }
                    },
                }
            },
        }
    }
}

/// `-addSubview:`. Answers the messages that are to be sent to the layers.
pub fn add_subview(env: &mut Environment, this: id, view: id) -> (res: Result<
    Vec<LayerAction>,
    ViewError,
>)
    requires
        old(env).wf(),
    ensures
        final(env).wf(),
        final(env).kept_but_objects(old(env)),
        final(env).mem == old(env).mem,
        match added(hierarchy(old(env).objc.objects()), this, view) {
            Ok((h, actions)) => res is Ok && res.unwrap()@ == actions && hierarchy(
                final(env).objc.objects(),
            ) == h,
            Err(e) => res == Err::<Vec<LayerAction>, ViewError>(e) && final(env).objc.objects()
                == old(env).objc.objects(),
        },
{
    let ghost h = hierarchy(env.objc.objects());
    if view.is_null() {
        return Ok(Vec::new());
    }
    let child = copy_view(env, view)?;
    if child.superview.same(this) {
        return bring_to_front(env, this, view);
    }
    let checked = copy_view(env, this)?;
    match env.objc.retain(view) {
        Ok(_) => {},
        Err(e) => {
            return Err(ViewError::ObjC(e));
        },
    }
    let ghost h1 = with_refcount(h, view, h[view.addr].refcount + 1);
    assert(hierarchy(env.objc.objects()) =~= h1);
    let (mut actions, due) = match remove_from_superview(env, view) {
        Ok(done) => done,
        Err(e) => {
            proof {
                crate::objc::lemma_retain_then_release(old(env).objc.objects(), view.addr);
            }
            let undone = env.objc.release(view);
            return Err(e);
        },
    };
    let ghost h2 = hierarchy(env.objc.objects());
    let ghost taken = actions@;
    assert(model_at(h2, view) is Ok);
    let mut child2 = match copy_view(env, view) {
        Ok(child2) => child2,
        Err(e) => {
            return Err(e);
        },
    };
    let child_layer = child2.layer;
    child2.superview = this;
    store_view(env, view, child2);
    let ghost h3 = hierarchy(env.objc.objects());
    assert(model_at(h3, this) is Ok);
    let mut parent = match copy_view(env, this) {
        Ok(parent) => parent,
        Err(e) => {
            return Err(e);
        },
    };
    let parent_layer = parent.layer;
    let ghost model = parent.model();
    append_subview(&mut parent, view);
    assert(parent.model() == with_subviews(model, model.subviews.push(view)));
    store_view(env, this, parent);
    actions.push(LayerAction::AddSublayer { layer: parent_layer, sublayer: child_layer });
    assert(actions@ =~= taken + seq![
        LayerAction::AddSublayer { layer: parent_layer, sublayer: child_layer },
    ]);
    Ok(actions)
}


/// The hierarchy after an object has been released; as it is where the
/// object cannot be released.
pub open spec fn released_in(h: Map<u32, Entry>, obj: id) -> Map<u32, Entry> {
    if h.contains_key(obj.addr) && h[obj.addr].refcount > 0 {
        with_refcount(h, obj, h[obj.addr].refcount - 1)
    } else {
        h
    }
}

/// The hierarchy after each object of a list has been released once, first
/// object first.
pub open spec fn drained_in(h: Map<u32, Entry>, members: Seq<id>) -> Map<u32, Entry>
    decreases members.len(),
{
    if members.len() == 0 {
        h
    } else {
        drained_in(released_in(h, members[0]), members.drop_first())
    }
}

/// The objects of a list whose release brings their count to zero, in the
/// order in which that happens.
pub open spec fn teardowns_in(h: Map<u32, Entry>, members: Seq<id>) -> Seq<id>
    decreases members.len(),
{
    if members.len() == 0 {
        Seq::empty()
    } else {
        let rest = teardowns_in(released_in(h, members[0]), members.drop_first());
        if h.contains_key(members[0].addr) && h[members[0].addr].refcount == 1 {
            seq![members[0]] + rest
        } else {
            rest
        }
    }
}

/// The objects of a list that cannot be released when their turn comes.
pub open spec fn misused_in(h: Map<u32, Entry>, members: Seq<id>) -> Seq<id>
    decreases members.len(),
{
    if members.len() == 0 {
        Seq::empty()
    } else {
        let rest = misused_in(released_in(h, members[0]), members.drop_first());
        if !(h.contains_key(members[0].addr) && h[members[0].addr].refcount > 0) {
            seq![members[0]] + rest
        } else {
            rest
        }
    }
}

/// Releasing objects does to the hierarchy what it does to the objects of
/// the runtime.
pub proof fn lemma_drained_in(objects: Map<u32, ObjectEntry<HostObject>>, members: Seq<id>)
    ensures
        hierarchy(drained(objects, members)) == drained_in(hierarchy(objects), members),
        teardowns_due(objects, members) == teardowns_in(hierarchy(objects), members),
        misused_members(objects, members) == misused_in(hierarchy(objects), members),
    decreases members.len(),
{
    if members.len() > 0 {
        let next = released(objects, members[0].addr);
        assert(hierarchy(next) =~= released_in(hierarchy(objects), members[0]));
        lemma_drained_in(next, members.drop_first());
    }
}

/// The hierarchy after each view of a list has lost its superview. What is
/// no view is passed over.
pub open spec fn orphaned(h: Map<u32, Entry>, list: Seq<id>) -> Map<u32, Entry>
    decreases list.len(),
{
    if list.len() == 0 {
        h
    } else {
        let before = orphaned(h, list.drop_last());
        match model_at(before, list.last()) {
            Ok(model) => with_model(before, list.last(), with_superview(model, nil_object())),
            Err(_) => before,
        }
    }
}

/// Whether every object of a list is a view.
pub open spec fn all_views(h: Map<u32, Entry>, list: Seq<id>) -> bool {
    forall|k: int| 0 <= k < list.len() ==> model_at(h, #[trigger] list[k]) is Ok
}

/// What a view refers to and drops at its teardown: its layer, unless that
/// is nil, and its subviews.
pub open spec fn dropped_by(view: ViewModel) -> Seq<id> {
    (if view.layer@ != 0 {
        seq![view.layer]
    } else {
        Seq::<id>::empty()
    }) + view.subviews
}

/// What the teardown of a view is answered with, apart from what a success
/// reports: the view as it was, and the list of views without it.
pub open spec fn dealloc_check(env: &Environment, this: id) -> Result<
    (ViewModel, Seq<id>),
    ViewError,
> {
    let h = hierarchy(env.objc.objects());
    match model_at(h, this) {
        Err(e) => Err(e),
        Ok(view) => if view.superview@ != 0 {
            Err(ViewError::HasSuperview)
        } else if !all_views(h, view.subviews) {
            Err(ViewError::NotAView)
        } else {
            match swapped_out(env.framework_state.uikit.ui_view.views@, this) {
                None => Err(ViewError::NotFound),
                Some(list) => match env.objc.dealloc_result(this, &env.mem) {
                    Err(e) => Err(ViewError::ObjC(e)),
                    Ok(_) => Ok((view, list)),
                },
            }
        },
    }
}

/// `-dealloc`: removes the view, whose count has to have reached zero and
/// which has to be without superview, from the runtime and from the list of
/// views, leaves its subviews without superview, and drops its references
/// to its layer and to its subviews.
pub fn dealloc(env: &mut Environment, this: id) -> (res: Result<DrainReport, ViewError>)
    requires
        old(env).wf(),
    ensures
        final(env).wf(),
        final(env).cpu == old(env).cpu,
        final(env).objc.selectors() == old(env).objc.selectors(),
        final(env).objc.classes() == old(env).objc.classes(),
        final(env).objc.pools() == old(env).objc.pools(),
        final(env).framework_state.audio_toolbox == old(env).framework_state.audio_toolbox,
        final(env).framework_state.foundation == old(env).framework_state.foundation,
        final(env).mem.contents() == old(env).mem.contents(),
        match res {
            Ok(report) => {
                let (view, list) = dealloc_check(old(env), this).unwrap();
                let left = orphaned(
                    hierarchy(old(env).objc.objects()).remove(this.addr),
                    view.subviews,
                );
                &&& dealloc_check(old(env), this) is Ok
                &&& hierarchy(final(env).objc.objects()) == drained_in(left, dropped_by(view))
                &&& report.teardowns@ == teardowns_in(left, dropped_by(view))
                &&& report.misused@ == misused_in(left, dropped_by(view))
                &&& final(env).framework_state.uikit.ui_view.views@ == list
                &&& final(env).mem.records() == old(env).mem.records_after_free(this@)
            },
            Err(e) => {
                &&& dealloc_check(old(env), this) == Err::<(ViewModel, Seq<id>), ViewError>(e)
                &&& final(env).objc.objects() == old(env).objc.objects()
                &&& final(env).framework_state == old(env).framework_state
                &&& final(env).mem.records() == old(env).mem.records()
            },
        },
{
    let ghost h = hierarchy(env.objc.objects());
    let view = copy_view(env, this)?;
    if !view.superview.is_null() {
        return Err(ViewError::HasSuperview);
    }
    let mut k: usize = 0;
    while k < view.subviews.len()
        invariant
            k <= view.subviews@.len(),
            h == hierarchy(env.objc.objects()),
            *env == *old(env),
            env.wf(),
            model_at(h, this) == Ok::<ViewModel, ViewError>(view.model()),
            view.superview@ == 0,
            forall|j: int| 0 <= j < k ==> model_at(h, #[trigger] view.subviews@[j]) is Ok,
        decreases view.subviews@.len() - k,
    {
        match copy_view(env, view.subviews[k]) {
            Ok(_) => {},
            Err(_) => {
                assert(model_at(h, view.subviews@[k as int]) is Err);
                return Err(ViewError::NotAView);
            },
        }
        k += 1;
    }
    if position(env.framework_state.uikit.ui_view.views.as_slice(), this).is_none() {
        return Err(ViewError::NotFound);
    }
    match env.objc.dealloc_object(this, &mut env.mem) {
        Ok(_) => {},
        Err(e) => {
            return Err(ViewError::ObjC(e));
        },
    }
    let gone = unregister_view(&mut env.framework_state.uikit.ui_view, this);
    let ghost h0 = h.remove(this.addr);
    assert(hierarchy(env.objc.objects()) =~= h0);
    let mut members: Vec<id> = Vec::new();
    if !view.layer.is_null() {
        members.push(view.layer);
    }
    let ghost first = members@;
    let mut i: usize = 0;
    assert(view.subviews@.subrange(0, 0) =~= Seq::<id>::empty());
    while i < view.subviews.len()
        invariant
            i <= view.subviews@.len(),
            env.wf(),
            env.cpu == old(env).cpu,
            env.mem.contents() == old(env).mem.contents(),
            env.mem.records() == old(env).mem.records_after_free(this@),
            env.objc.selectors() == old(env).objc.selectors(),
            env.objc.classes() == old(env).objc.classes(),
            env.objc.pools() == old(env).objc.pools(),
            env.framework_state.audio_toolbox == old(env).framework_state.audio_toolbox,
            env.framework_state.foundation == old(env).framework_state.foundation,
            env.framework_state.uikit.ui_view.views@ == swapped_out(
                old(env).framework_state.uikit.ui_view.views@,
                this,
            ).unwrap(),
            hierarchy(env.objc.objects()) == orphaned(h0, view.subviews@.subrange(0, i as int)),
            members@ == first + view.subviews@.subrange(0, i as int),
        decreases view.subviews@.len() - i,
    {
        let subview = view.subviews[i];
        proof {
            assert(view.subviews@.subrange(0, i + 1).drop_last() =~= view.subviews@.subrange(
                0,
                i as int,
            ));
            assert(view.subviews@.subrange(0, i + 1).last() == subview);
        }
        match copy_view(env, subview) {
            Ok(orphan) => {
                let mut orphan = orphan;
                orphan.superview = nil();
                store_view(env, subview, orphan);
            },
            Err(_) => {},
        }
        members.push(subview);
        assert(members@ =~= first + view.subviews@.subrange(0, i + 1));
        i += 1;
    }
    proof {
        assert(view.subviews@.subrange(0, view.subviews@.len() as int) =~= view.subviews@);
        assert(members@ =~= dropped_by(view.model()));
        lemma_drained_in(env.objc.objects(), members@);
    }
    Ok(env.objc.release_all(members.as_slice()))
}


/// What a new view keeps.
pub open spec fn default_model() -> ViewModel {
    ViewModel {
        layer: nil_object(),
        subviews: Seq::empty(),
        superview: nil_object(),
        clears_context_before_drawing: true,
        user_interaction_enabled: true,
    }
}

/// `+allocWithZone:`: a new view without layer, subviews or superview.
pub fn alloc_with_zone(env: &mut Environment, this: Class) -> (res: Result<id, ObjCError>)
    requires
        old(env).wf(),
    ensures
        final(env).wf(),
        final(env).kept_but_objects(old(env)),
        res == old(env).objc.alloc_result(this, &old(env).mem),
        match res {
            Ok(obj) => hierarchy(final(env).objc.objects()) == hierarchy(
                old(env).objc.objects(),
            ).insert(
                obj.addr,
                Entry { class: this, refcount: 1, payload: Payload::View(default_model()) },
            ) && final(env).mem.records() == old(env).mem.records().push(
                crate::mem::AllocRecord {
                    base: obj.addr,
                    size: crate::objc::INSTANCE_SIZE,
                    live: true,
                },
            ) && final(env).mem.contents().subrange(0, old(env).mem.brk()) == old(env).mem.contents(),
            Err(_) => *final(env) == *old(env),
        },
{
    let host_object = UIViewHostObject::default();
    assert(host_object.model() == default_model());
    let res = env.objc.alloc_object(this, HostObject::View(host_object), &mut env.mem);
    proof {
        if let Ok(obj) = res {
            assert(hierarchy(env.objc.objects()) =~= hierarchy(old(env).objc.objects()).insert(
                obj.addr,
                Entry { class: this, refcount: 1, payload: Payload::View(default_model()) },
            ));
        }
    }
    res
}

/// `-init`: the view takes the layer that was made for it and joins the
/// list of views.
pub fn init(env: &mut Environment, this: id, layer: id) -> (res: Result<id, ViewError>)
    requires
        old(env).wf(),
    ensures
        final(env).wf(),
        final(env).cpu == old(env).cpu,
        final(env).mem == old(env).mem,
        final(env).objc.selectors() == old(env).objc.selectors(),
        final(env).objc.classes() == old(env).objc.classes(),
        final(env).objc.pools() == old(env).objc.pools(),
        final(env).framework_state.audio_toolbox == old(env).framework_state.audio_toolbox,
        final(env).framework_state.foundation == old(env).framework_state.foundation,
        match model_at(hierarchy(old(env).objc.objects()), this) {
            Ok(view) => {
                &&& res == Ok::<id, ViewError>(this)
                &&& hierarchy(final(env).objc.objects()) == with_model(
                    hierarchy(old(env).objc.objects()),
                    this,
                    ViewModel {
                        layer,
                        subviews: view.subviews,
                        superview: view.superview,
                        clears_context_before_drawing: view.clears_context_before_drawing,
                        user_interaction_enabled: view.user_interaction_enabled,
                    },
                )
                &&& final(env).framework_state.uikit.ui_view.views@ == old(env).framework_state.uikit.ui_view.views@.push(this)
            },
            Err(e) => res == Err::<id, ViewError>(e) && *final(env) == *old(env),
        },
{
    let mut view = copy_view(env, this)?;
    view.layer = layer;
    store_view(env, this, view);
    register_view(&mut env.framework_state.uikit.ui_view, this);
    Ok(this)
}

/// `-superview`.
pub fn superview(env: &Environment, this: id) -> (res: Result<id, ViewError>)
    ensures
        match model_at(hierarchy(env.objc.objects()), this) {
            Ok(view) => res == Ok::<id, ViewError>(view.superview),
            Err(e) => res == Err::<id, ViewError>(e),
        },
{
    match env.objc.borrow(this) {
        Ok(host_object) => match host_object {
            HostObject::View(view) => Ok(view.superview),
            _ => Err(ViewError::NotAView),
        },
        Err(e) => Err(ViewError::ObjC(e)),
    }
}

/// `-layer`.
pub fn layer(env: &Environment, this: id) -> (res: Result<id, ViewError>)
    ensures
        match model_at(hierarchy(env.objc.objects()), this) {
            Ok(view) => res == Ok::<id, ViewError>(view.layer),
            Err(e) => res == Err::<id, ViewError>(e),
        },
{
    match env.objc.borrow(this) {
        Ok(host_object) => match host_object {
            HostObject::View(view) => Ok(view.layer),
            _ => Err(ViewError::NotAView),
        },
        Err(e) => Err(ViewError::ObjC(e)),
    }
}

/// The subviews of a view, from the one at the back to the one in front.
pub fn subviews(env: &Environment, this: id) -> (res: Result<Vec<id>, ViewError>)
    ensures
        match model_at(hierarchy(env.objc.objects()), this) {
            Ok(view) => res is Ok && res.unwrap()@ == view.subviews,
            Err(e) => res == Err::<Vec<id>, ViewError>(e),
        },
{
    let view = copy_view(env, this)?;
    Ok(view.subviews)
}

} // verus!
