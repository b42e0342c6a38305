//! The object runtime: classes, objects with their reference counts,
//! message dispatch and autorelease pools.
//!
//! The runtime decides; it never runs a method. A send is answered with the
//! implementation to invoke, and a release that gives up the last reference
//! with the teardown method to run before the storage is reclaimed. Whoever
//! drives the processor core carries these out.

use crate::cache::DispatchCache;
use crate::class::{
    class_of_def, forwarding_hook, register_outcome, resolve, ClassDef, ClassDefView, ClassId,
    ClassTable, ClassView, Imp, Method, MethodKind,
};
use crate::error::ObjcError;
use crate::mem::{base_region, has_base, GuestAddress, Mem, MemError, MemoryRegion};
use crate::names::{name_of, utf8};
use crate::selector::{names_with, selector_index, Selector, SelectorTable};
use std::collections::HashMap;
use vstd::prelude::*;

verus! {

broadcast use vstd::std_specs::hash::group_hash_axioms;

/// What the runtime records of a live object.
#[derive(Clone, Copy, Debug, PartialEq, Eq, Structural)]
pub struct ObjectState {
    /// The object's dynamic class.
    pub class: ClassId,
    /// References held. 0 while the teardown method runs.
    pub count: u32,
}

/// The answer to a message send.
#[derive(Clone, Copy, Debug, PartialEq, Eq, Structural)]
pub enum Dispatch {
    /// The receiver is null: the send yields zero and invokes nothing.
    Nil,
    /// Invoke `imp`, which class `class` defines.
    Invoke { imp: Imp, class: ClassId },
    /// No class of the chain defines the selector: offer it to this
    /// forwarding hook.
    Forward { hook: Imp },
}

/// The answer to a release.
#[derive(Clone, Copy, Debug, PartialEq, Eq, Structural)]
pub enum Released {
    /// The receiver is null: nothing happened.
    Nil,
    /// The object lives on with this many references.
    Alive(u32),
    /// The last reference is gone. Run this teardown method, then reclaim the
    /// storage with [`Runtime::dealloc_object`].
    Teardown(Imp),
    /// The last reference is gone and the storage is reclaimed.
    Deallocated,
}

/// The runtime as contracts see it.
#[verifier::ext_equal]
pub struct RuntimeView {
    /// Interned selector names, by selector.
    pub selectors: Seq<Seq<u8>>,
    /// Registered classes, by identity.
    pub classes: Seq<ClassView>,
    /// Live objects, by address.
    pub objects: Map<GuestAddress, ObjectState>,
    /// Open autorelease pools, innermost last.
    pub pools: Seq<Seq<GuestAddress>>,
    /// The selector of the teardown method.
    pub teardown: Selector,
}

/// Name of the teardown method.
pub open spec fn teardown_name() -> Seq<u8> {
    utf8("dealloc"@)
}

/// `rt` after `name` was interned as a selector.
pub open spec fn with_selector(rt: RuntimeView, name: Seq<u8>) -> RuntimeView {
    RuntimeView { selectors: names_with(rt.selectors, name), ..rt }
}

/// What a send of `sel` to something of class `class` answers: the nearest
/// definition on the chain, else the nearest forwarding hook, else
/// `DoesNotUnderstand` with the selector and that class.
pub open spec fn dispatch(classes: Seq<ClassView>, class: ClassId, sel: Selector, kind: MethodKind)
    -> Result<Dispatch, ObjcError> {
    match resolve(classes, class, sel, kind) {
        Some((owner, imp)) => Ok(Dispatch::Invoke { imp, class: owner }),
        None => match forwarding_hook(classes, class) {
            Some(hook) => Ok(Dispatch::Forward { hook }),
            None => Err(ObjcError::DoesNotUnderstand { selector: sel, class }),
        },
    }
}

/// What a send of `sel` to the object at `receiver` answers.
pub open spec fn send_outcome(rt: RuntimeView, receiver: GuestAddress, sel: Selector) -> Result<
    Dispatch,
    ObjcError,
> {
    if receiver == 0 {
        Ok(Dispatch::Nil)
    } else if !rt.objects.contains_key(receiver) {
        Err(ObjcError::Memory(MemError::OutOfBounds))
    } else {
        dispatch(rt.classes, rt.objects[receiver].class, sel, MethodKind::Instance)
    }
}

/// What registering a class does and answers: where the table accepts the
/// definition, the class is added last.
pub open spec fn register_model(rt: RuntimeView, def: ClassDefView) -> (
    RuntimeView,
    Result<ClassId, ObjcError>,
) {
    match register_outcome(rt.classes, def) {
        Ok(id) => (
            RuntimeView { classes: rt.classes.push(class_of_def(rt.classes, def)), ..rt },
            Ok(id),
        ),
        Err(e) => (rt, Err(e)),
    }
}

/// `rt` with the reference count of the object at `obj` set to `count`.
pub open spec fn with_count(rt: RuntimeView, obj: GuestAddress, count: u32) -> RuntimeView {
    RuntimeView {
        objects: rt.objects.insert(obj, ObjectState { class: rt.objects[obj].class, count }),
        ..rt
    }
}

/// `rt` without the object at `obj`.
pub open spec fn without_object(rt: RuntimeView, obj: GuestAddress) -> RuntimeView {
    RuntimeView { objects: rt.objects.remove(obj), ..rt }
}

/// Whether an object lives at `obj` and holds at least one reference.
pub open spec fn is_referenced(rt: RuntimeView, obj: GuestAddress) -> bool {
    rt.objects.contains_key(obj) && rt.objects[obj].count >= 1
}

/// What a retain of `obj` does and answers: the new count. Null is left
/// alone; an address without a referenced object is refused; a count of
/// `u32::MAX` stays as it is.
pub open spec fn retain_model(rt: RuntimeView, obj: GuestAddress) -> (
    RuntimeView,
    Result<u32, ObjcError>,
) {
    if obj == 0 {
        (rt, Ok(0))
    } else if !is_referenced(rt, obj) {
        (rt, Err(ObjcError::Memory(MemError::OutOfBounds)))
    } else if rt.objects[obj].count == u32::MAX {
        (rt, Ok(u32::MAX))
    } else {
        let count = (rt.objects[obj].count + 1) as u32;
        (with_count(rt, obj, count), Ok(count))
    }
}

/// What a release of `obj` does to the runtime and to the live regions, and
/// what it answers.
///
/// Null is left alone. An address without a referenced object fails with
/// `DoubleRelease`. A count above 1 goes down by one. The last reference:
/// where the class chain defines the teardown method, the count becomes 0
/// and the method is handed out, the storage untouched; else the object is
/// forgotten and its storage freed, or the release fails with `InvalidFree`,
/// changing nothing, where no live region starts at `obj`.
pub open spec fn release_model(rt: RuntimeView, live: Set<MemoryRegion>, obj: GuestAddress) -> (
    RuntimeView,
    Set<MemoryRegion>,
    Result<Released, ObjcError>,
) {
    if obj == 0 {
        (rt, live, Ok(Released::Nil))
    } else if !is_referenced(rt, obj) {
        (rt, live, Err(ObjcError::DoubleRelease))
    } else if rt.objects[obj].count > 1 {
        let count = (rt.objects[obj].count - 1) as u32;
        (with_count(rt, obj, count), live, Ok(Released::Alive(count)))
    } else {
        match resolve(rt.classes, rt.objects[obj].class, rt.teardown, MethodKind::Instance) {
            Some((_, imp)) => (with_count(rt, obj, 0), live, Ok(Released::Teardown(imp))),
            None => if has_base(live, obj) {
                (
                    without_object(rt, obj),
                    live.remove(base_region(live, obj)),
                    Ok(Released::Deallocated),
                )
            } else {
                (rt, live, Err(ObjcError::Memory(MemError::InvalidFree)))
            },
        }
    }
}

/// What reclaiming the object at `obj` does and answers. It fails with
/// `DoubleRelease` where no object lives there, and with `InvalidFree` where
/// the object still holds a reference or no live region starts at `obj`; a
/// failure changes nothing.
pub open spec fn dealloc_model(rt: RuntimeView, live: Set<MemoryRegion>, obj: GuestAddress) -> (
    RuntimeView,
    Set<MemoryRegion>,
    Result<(), ObjcError>,
) {
    if !rt.objects.contains_key(obj) {
        (rt, live, Err(ObjcError::DoubleRelease))
    } else if rt.objects[obj].count != 0 || !has_base(live, obj) {
        (rt, live, Err(ObjcError::Memory(MemError::InvalidFree)))
    } else {
        (without_object(rt, obj), live.remove(base_region(live, obj)), Ok(()))
    }
}

/// What an autorelease of `obj` does and answers. Null is left alone; with
/// no pool open it fails with `PoolUnderflow`; else `obj` is recorded last
/// on the innermost pool.
pub open spec fn autorelease_model(rt: RuntimeView, obj: GuestAddress) -> (
    RuntimeView,
    Result<GuestAddress, ObjcError>,
) {
    if obj == 0 {
        (rt, Ok(0))
    } else if rt.pools.len() == 0 {
        (rt, Err(ObjcError::PoolUnderflow))
    } else {
        (
            RuntimeView {
                pools: rt.pools.update(rt.pools.len() - 1, rt.pools.last().push(obj)),
                ..rt
            },
            Ok(obj),
        )
    }
}

/// What releasing `objs[from..]` one after the other does to the runtime
/// and to the live regions, with the answer of each release.
pub open spec fn drain_model(
    rt: RuntimeView,
    live: Set<MemoryRegion>,
    objs: Seq<GuestAddress>,
    from: int,
) -> (RuntimeView, Set<MemoryRegion>, Seq<Result<Released, ObjcError>>)
    decreases objs.len() - from,
{
    if from < 0 || from >= objs.len() {
        (rt, live, Seq::empty())
    } else {
        let first = release_model(rt, live, objs[from]);
        let rest = drain_model(first.0, first.1, objs, from + 1);
        (rest.0, rest.1, seq![first.2] + rest.2)
    }
}

/// `rt` with its innermost pool closed.
pub open spec fn without_top_pool(rt: RuntimeView) -> RuntimeView {
    RuntimeView { pools: rt.pools.drop_last(), ..rt }
}

/// `rt` after the first `upto` of `objs` were autoreleased.
pub open spec fn autoreleased(rt: RuntimeView, objs: Seq<GuestAddress>, upto: int) -> RuntimeView
    decreases upto,
{
    if upto <= 0 {
        rt
    } else {
        autorelease_model(autoreleased(rt, objs, upto - 1), objs[upto - 1]).0
    }
}

/// A pool holds what was recorded since its push: after a pool was opened
/// and objects, none of them null, were autoreleased, the innermost pool
/// holds exactly these objects in their order, and the pools around it are
/// as they were. Closing the pool therefore releases these and no others.
pub proof fn lemma_pool_holds_what_was_recorded(rt: RuntimeView, objs: Seq<GuestAddress>)
    requires
        forall|i: int| 0 <= i < objs.len() ==> objs[i] != 0,
    ensures
        autoreleased(
            RuntimeView { pools: rt.pools.push(Seq::empty()), ..rt },
            objs,
            objs.len() as int,
        ) == (RuntimeView { pools: rt.pools.push(objs), ..rt }),
{
    lemma_autoreleased_prefix(rt, objs, objs.len() as int);
    assert(objs.subrange(0, objs.len() as int) =~= objs);
}

/// After a pool was opened and the first `upto` of `objs` were autoreleased,
/// the innermost pool holds these.
proof fn lemma_autoreleased_prefix(rt: RuntimeView, objs: Seq<GuestAddress>, upto: int)
    requires
        0 <= upto <= objs.len(),
        forall|i: int| 0 <= i < objs.len() ==> objs[i] != 0,
    ensures
        autoreleased(RuntimeView { pools: rt.pools.push(Seq::empty()), ..rt }, objs, upto) == (
        RuntimeView { pools: rt.pools.push(objs.subrange(0, upto)), ..rt }),
    decreases upto,
{
    let opened = RuntimeView { pools: rt.pools.push(Seq::empty()), ..rt };
    if upto == 0 {
        assert(objs.subrange(0, 0) =~= Seq::<GuestAddress>::empty());
    } else {
        lemma_autoreleased_prefix(rt, objs, upto - 1);
        let before = RuntimeView { pools: rt.pools.push(objs.subrange(0, upto - 1)), ..rt };
        assert(before.pools.last() == objs.subrange(0, upto - 1));
        assert(objs.subrange(0, upto - 1).push(objs[upto - 1]) =~= objs.subrange(0, upto));
        assert(before.pools.update(
            before.pools.len() - 1,
            before.pools.last().push(objs[upto - 1]),
        ) =~= rt.pools.push(objs.subrange(0, upto)));
    }
}

/// `rt` after `n` successful retains of `obj`.
pub open spec fn retain_times(rt: RuntimeView, obj: GuestAddress, n: nat) -> RuntimeView
    decreases n,
{
    if n == 0 {
        rt
    } else {
        retain_times(retain_model(rt, obj).0, obj, (n - 1) as nat)
    }
}

/// `rt` and the live regions after `n` releases of `obj`.
pub open spec fn release_times(
    rt: RuntimeView,
    live: Set<MemoryRegion>,
    obj: GuestAddress,
    n: nat,
) -> (RuntimeView, Set<MemoryRegion>)
    decreases n,
{
    if n == 0 {
        (rt, live)
    } else {
        let once = release_model(rt, live, obj);
        release_times(once.0, once.1, obj, (n - 1) as nat)
    }
}

/// `n` retains add `n` to the count, as long as it stays within `u32`.
pub proof fn lemma_retain_times(rt: RuntimeView, obj: GuestAddress, n: nat)
    requires
        obj != 0,
        is_referenced(rt, obj),
        rt.objects[obj].count + n <= u32::MAX,
    ensures
        retain_times(rt, obj, n) == with_count(rt, obj, (rt.objects[obj].count + n) as u32),
    decreases n,
{
    if n == 0 {
        assert(with_count(rt, obj, rt.objects[obj].count) =~= rt);
    } else {
        let next = retain_model(rt, obj).0;
        lemma_retain_times(next, obj, (n - 1) as nat);
        assert(with_count(next, obj, (rt.objects[obj].count + n) as u32) =~= with_count(
            rt,
            obj,
            (rt.objects[obj].count + n) as u32,
        ));
    }
}

/// `n` releases of an object that holds more than `n` references take `n`
/// from the count and touch no storage.
pub proof fn lemma_release_times(
    rt: RuntimeView,
    live: Set<MemoryRegion>,
    obj: GuestAddress,
    n: nat,
)
    requires
        obj != 0,
        rt.objects.contains_key(obj),
        rt.objects[obj].count > n,
    ensures
        release_times(rt, live, obj, n) == (
            with_count(rt, obj, (rt.objects[obj].count - n) as u32),
            live,
        ),
    decreases n,
{
    if n == 0 {
        assert(with_count(rt, obj, rt.objects[obj].count) =~= rt);
    } else {
        let next = release_model(rt, live, obj).0;
        lemma_release_times(next, live, obj, (n - 1) as nat);
        assert(with_count(next, obj, (rt.objects[obj].count - n) as u32) =~= with_count(
            rt,
            obj,
            (rt.objects[obj].count - n) as u32,
        ));
    }
}

/// Reference counting round trip: `n` retains followed by `n` releases leave
/// the runtime and the storage as they were, so that none of these releases
/// deallocates.
pub proof fn lemma_retain_release_round_trip(
    rt: RuntimeView,
    live: Set<MemoryRegion>,
    obj: GuestAddress,
    n: nat,
)
    requires
        obj != 0,
        is_referenced(rt, obj),
        rt.objects[obj].count + n <= u32::MAX,
    ensures
        retain_times(rt, obj, n).objects[obj].count == rt.objects[obj].count + n,
        release_times(retain_times(rt, obj, n), live, obj, n) == (rt, live),
{
    lemma_retain_times(rt, obj, n);
    let up = retain_times(rt, obj, n);
    lemma_release_times(up, live, obj, n);
    assert(with_count(up, obj, rt.objects[obj].count) =~= rt);
}

/// The last release. Of an object with one reference left:
/// where its class chain defines the teardown method, the release hands
/// that method out once and leaves the storage live, a further release
/// fails, and reclaiming then forgets the object and frees its storage, once;
/// where the chain defines none, the release itself forgets the object and
/// frees its storage, and a further release fails.
pub proof fn lemma_last_release(rt: RuntimeView, live: Set<MemoryRegion>, obj: GuestAddress)
    requires
        obj != 0,
        rt.objects.contains_key(obj),
        rt.objects[obj].count == 1,
        has_base(live, obj),
    ensures
        ({
            let last = release_model(rt, live, obj);
            let teardown = resolve(
                rt.classes,
                rt.objects[obj].class,
                rt.teardown,
                MethodKind::Instance,
            );
            let reclaimed = dealloc_model(last.0, last.1, obj);
            &&& release_model(last.0, last.1, obj).2 == Err::<Released, ObjcError>(
                ObjcError::DoubleRelease,
            )
            &&& teardown is Some ==> {
                &&& last.2 == Ok::<Released, ObjcError>(Released::Teardown(teardown->Some_0.1))
                &&& last.1 == live
                &&& last.0.objects.contains_key(obj)
                &&& reclaimed.2 is Ok
                &&& !reclaimed.0.objects.contains_key(obj)
                &&& reclaimed.1 == live.remove(base_region(live, obj))
                &&& dealloc_model(reclaimed.0, reclaimed.1, obj).2 == Err::<(), ObjcError>(
                    ObjcError::DoubleRelease,
                )
            }
            &&& teardown is None ==> {
                &&& last.2 == Ok::<Released, ObjcError>(Released::Deallocated)
                &&& !last.0.objects.contains_key(obj)
                &&& last.1 == live.remove(base_region(live, obj))
            }
        }),
{
}

/// A send of a selector that no class of the receiver's chain defines, with
/// no forwarding hook on the chain, fails with `DoesNotUnderstand`, which
/// carries that selector and the receiver's dynamic class.
pub proof fn lemma_unanswered_send_fails(rt: RuntimeView, receiver: GuestAddress, sel: Selector)
    requires
        receiver != 0,
        rt.objects.contains_key(receiver),
        resolve(rt.classes, rt.objects[receiver].class, sel, MethodKind::Instance) is None,
        forwarding_hook(rt.classes, rt.objects[receiver].class) is None,
    ensures
        send_outcome(rt, receiver, sel) == Err::<Dispatch, ObjcError>(
            ObjcError::DoesNotUnderstand { selector: sel, class: rt.objects[receiver].class },
        ),
{
}

/// Inheritance: a send to an instance of `class` of a selector that `above`
/// defines, `steps` superclass links up, and that no class below it on the
/// chain defines, is answered with the implementation that `above` gives.
pub proof fn lemma_send_reaches_inherited_method(
    rt: RuntimeView,
    receiver: GuestAddress,
    above: ClassId,
    steps: nat,
    sel: Selector,
    imp: Imp,
)
    requires
        receiver != 0,
        rt.objects.contains_key(receiver),
        crate::class::ancestor(rt.classes, rt.objects[receiver].class, steps) == Some(above),
        crate::class::find_method(rt.classes[above as int].methods, sel) == Some(imp),
        forall|k: nat|
            k < steps ==> {
                let below = #[trigger] crate::class::ancestor(
                    rt.classes,
                    rt.objects[receiver].class,
                    k,
                );
                below is Some && crate::class::find_method(
                    rt.classes[below->Some_0 as int].methods,
                    sel,
                ) is None
            },
    ensures
        send_outcome(rt, receiver, sel) == Ok::<Dispatch, ObjcError>(
            Dispatch::Invoke { imp, class: above },
        ),
{
    crate::class::lemma_inherited_method_resolves(
        rt.classes,
        rt.objects[receiver].class,
        above,
        steps,
        sel,
        MethodKind::Instance,
        imp,
    );
}

/// What closing a pool hands back: the objects that were recorded on it, in
/// the order in which they were recorded, and what the release of each
/// answered.
pub struct Drained {
    pub objects: Vec<GuestAddress>,
    pub outcomes: Vec<Result<Released, ObjcError>>,
}

/// The object runtime.
pub struct Runtime {
    selectors: SelectorTable,
    classes: ClassTable,
    objects: HashMap<GuestAddress, ObjectState>,
    pools: Vec<Vec<GuestAddress>>,
    teardown: Selector,
    /// What chain walks have found, so that a repeated send need not walk
    /// again.
    cache: DispatchCache,
}

impl View for Runtime {
    type V = RuntimeView;

    closed spec fn view(&self) -> RuntimeView {
        RuntimeView {
            selectors: self.selectors.names(),
            classes: self.classes.classes(),
            objects: self.objects@,
            pools: Seq::new(self.pools@.len(), |i: int| self.pools@[i]@),
            teardown: self.teardown,
        }
    }
}

/// The invariant of a runtime, over its view: no selector name is interned
/// twice, the class table is in order, and the teardown selector is the one
/// of [`teardown_name`].
pub open spec fn runtime_wf(rt: RuntimeView) -> bool {
    &&& forall|i: int, j: int|
        0 <= i < j < rt.selectors.len() ==> rt.selectors[i] != rt.selectors[j]
    &&& crate::class::classes_wf(rt.classes)
    &&& rt.teardown.index < rt.selectors.len()
    &&& rt.selectors[rt.teardown.index as int] == teardown_name()
}

impl Runtime {
    /// See [`runtime_wf`]; besides, the dispatch cache holds nothing but
    /// what the chain walk finds.
    pub open spec fn wf(&self) -> bool {
        runtime_wf(self@) && self.cache_coherent()
    }

    /// Whether the dispatch cache holds nothing but what the chain walk
    /// finds.
    pub closed spec fn cache_coherent(&self) -> bool {
        self.cache.coherent(self.classes.classes())
    }

    /// A runtime with no class, no object and no open pool. Only the name of
    /// the teardown method is interned.
    pub fn new() -> (rt: Runtime)
        ensures
            rt.wf(),
            rt@.selectors == seq![teardown_name()],
            rt@.classes == Seq::<ClassView>::empty(),
            rt@.objects == Map::<GuestAddress, ObjectState>::empty(),
            rt@.pools == Seq::<Seq<GuestAddress>>::empty(),
    {
        let mut selectors = SelectorTable::new();
        let name = name_of("dealloc");
        let teardown = selectors.intern(name.as_slice());
        let rt = Runtime {
            selectors,
            classes: ClassTable::new(),
            objects: HashMap::new(),
            pools: Vec::new(),
            teardown,
            cache: DispatchCache::new(),
        };
        assert(rt@.selectors =~= seq![teardown_name()]);
        assert(rt@.pools =~= Seq::<Seq<GuestAddress>>::empty());
        rt
    }

    /// The selector of `name`, interned now if it is new. Equal names give
    /// equal selectors; selectors handed out before keep their names.
    pub fn selector(&mut self, name: &[u8]) -> (sel: Selector)
        requires
            old(self).wf(),
        ensures
            final(self).wf(),
            sel.index < final(self)@.selectors.len(),
            final(self)@.selectors[sel.index as int] == name@,
            sel == selector_index(old(self)@.selectors, name@),
            final(self)@ == with_selector(old(self)@, name@),
    {
        self.selectors.intern(name)
    }

    /// The selector of `name`, if it is interned.
    pub fn find_selector(&self, name: &[u8]) -> (found: Option<Selector>)
        ensures
            match found {
                Some(sel) => sel.index < self@.selectors.len() && self@.selectors[sel.index as int]
                    == name@,
                None => !self@.selectors.contains(name@),
            },
    {
        self.selectors.lookup(name)
    }

    /// The name of `sel`, or `None` where this runtime did not hand it out.
    pub fn selector_name(&self, sel: Selector) -> (name: Option<Vec<u8>>)
        ensures
            name is Some <==> sel.index < self@.selectors.len(),
            name is Some ==> name->Some_0@ == self@.selectors[sel.index as int],
    {
        self.selectors.name(sel)
    }

    /// The selector of the teardown method.
    pub fn teardown_selector(&self) -> (sel: Selector)
        ensures
            sel == self@.teardown,
    {
        self.teardown
    }

    /// Registers a class. Fails, changing nothing, with `DuplicateClass`
    /// where the name is taken and else with `UnknownSuperclass` where the
    /// named superclass is not registered yet.
    pub fn register_class(&mut self, def: ClassDef) -> (r: Result<ClassId, ObjcError>)
        requires
            old(self).wf(),
        ensures
            final(self).wf(),
            final(self)@ == register_model(old(self)@, def@).0,
            r == register_model(old(self)@, def@).1,
    {
        proof {
            self.cache.lemma_push_keeps_coherent(
                self.classes.classes(),
                class_of_def(self.classes.classes(), def@),
            );
        }
        self.classes.register_class(def)
    }

    /// The class called `name`, if one is registered.
    pub fn find_class(&self, name: &[u8]) -> (found: Option<ClassId>)
        requires
            self.wf(),
        ensures
            found == crate::class::class_index(self@.classes, name@),
            found is Some ==> {
                &&& found->Some_0 < self@.classes.len()
                &&& self@.classes[found->Some_0 as int].name == name@
            },
    {
        self.classes.find_class(name)
    }

    /// The name of `class`, or `None` where no such class is registered.
    pub fn class_name(&self, class: ClassId) -> (name: Option<Vec<u8>>)
        ensures
            name is Some <==> class < self@.classes.len(),
            name is Some ==> name->Some_0@ == self@.classes[class as int].name,
    {
        self.classes.name(class)
    }

    /// Adds `method` to the table of the given kind of `class`, where it
    /// replaces the class's own entry for its selector, if there is one.
    /// The answer says whether `class` is registered; nothing changes where
    /// it is not.
    pub fn add_method(&mut self, class: ClassId, kind: MethodKind, method: Method) -> (added: bool)
        requires
            old(self).wf(),
        ensures
            final(self).wf(),
            added == (class < old(self)@.classes.len()),
            added ==> final(self)@ == (RuntimeView {
                classes: old(self)@.classes.update(
                    class as int,
                    crate::class::class_with_method(
                        old(self)@.classes[class as int],
                        kind,
                        method,
                    ),
                ),
                ..old(self)@
            }),
            !added ==> final(self)@ == old(self)@,
    {
        let added = self.classes.add_method(class, kind, method);
        if added {
            self.cache.clear();
        }
        added
    }

    /// Whether `class` is `other` or has it on its superclass chain.
    pub fn class_is_subclass_of(&self, class: ClassId, other: ClassId) -> (yes: bool)
        ensures
            yes == crate::class::is_subclass(self@.classes, class, other),
    {
        self.classes.is_subclass_of(class, other)
    }

    /// How many classes are registered.
    pub fn class_count(&self) -> (n: usize)
        ensures
            n == self@.classes.len(),
    {
        self.classes.len()
    }

    /// The state of the object at `obj`, or `None` where no object lives
    /// there.
    pub fn object(&self, obj: GuestAddress) -> (state: Option<ObjectState>)
        ensures
            state == (if self@.objects.contains_key(obj) {
                Some(self@.objects[obj])
            } else {
                None
            }),
    {
        match self.objects.get(&obj) {
            Some(state) => Some(*state),
            None => None,
        }
    }

    /// Answers a send of `sel` to the object at `receiver`. A null receiver
    /// yields `Nil`; an address at which no object lives fails with
    /// `OutOfBounds`; else the class chain is walked from the object's
    /// dynamic class, then the forwarding hook is looked for, and where both
    /// fail the send fails with `DoesNotUnderstand`.
    pub fn send_message(&mut self, receiver: GuestAddress, sel: Selector) -> (r: Result<
        Dispatch,
        ObjcError,
    >)
        requires
            old(self).wf(),
        ensures
            final(self).wf(),
            final(self)@ == old(self)@,
            r == send_outcome(old(self)@, receiver, sel),
    {
        if receiver == 0 {
            return Ok(Dispatch::Nil);
        }
        let class: ClassId = match self.objects.get(&receiver) {
            None => {
                return Err(ObjcError::Memory(MemError::OutOfBounds));
            },
            Some(state) => state.class,
        };
        self.dispatch_from(class, sel, MethodKind::Instance)
    }

    /// Answers a send of `sel` to the class `class` itself.
    pub fn send_class_message(&mut self, class: ClassId, sel: Selector) -> (r: Result<
        Dispatch,
        ObjcError,
    >)
        requires
            old(self).wf(),
        ensures
            final(self).wf(),
            final(self)@ == old(self)@,
            r == dispatch(old(self)@.classes, class, sel, MethodKind::Class),
    {
        self.dispatch_from(class, sel, MethodKind::Class)
    }

    /// Creates an object of `class` with one reference, in fresh storage of
    /// the class's instance size, aligned to 4. Fails, changing nothing, with
    /// `OutOfBounds` where no such class is registered and with
    /// `OutOfMemory` where the storage fits nowhere.
    pub fn alloc_object(&mut self, class: ClassId, mem: &mut Mem) -> (r: Result<
        GuestAddress,
        ObjcError,
    >)
        requires
            old(self).wf(),
            old(mem).wf(),
        ensures
            final(self).wf(),
            final(mem).wf(),
            final(mem).bytes() == old(mem).bytes(),
            class >= old(self)@.classes.len() ==> r == Err::<GuestAddress, ObjcError>(
                ObjcError::Memory(MemError::OutOfBounds),
            ),
            r is Err ==> final(self)@ == old(self)@ && final(mem).live() == old(mem).live(),
            class < old(self)@.classes.len() ==> {
                let size = crate::mem::at_least_one(
                    old(self)@.classes[class as int].instance_size,
                );
                match r {
                    Ok(addr) => {
                        &&& old(mem).can_place(addr as int, size, 4)
                        &&& forall|b: int| b < addr ==> !old(mem).can_place(b, size, 4)
                        &&& final(mem).live() == old(mem).live().insert(
                            crate::mem::heap_region(addr, size),
                        )
                        &&& final(self)@ == (RuntimeView {
                            objects: old(self)@.objects.insert(
                                addr,
                                ObjectState { class, count: 1 },
                            ),
                            ..old(self)@
                        })
                    },
                    Err(e) => {
                        &&& e == ObjcError::Memory(MemError::OutOfMemory)
                        &&& forall|b: int| !old(mem).can_place(b, size, 4)
                    },
                }
            },
    {
        let size: u32 = match self.classes.instance_size(class) {
            Some(size) => size,
            None => {
                return Err(ObjcError::Memory(MemError::OutOfBounds));
            },
        };
        assert(crate::mem::at_least_one(4) == 4);
        match mem.allocate(size, 4) {
            Err(e) => Err(ObjcError::Memory(e)),
            Ok(addr) => {
                self.objects.insert(addr, ObjectState { class, count: 1 });
                Ok(addr)
            },
        }
    }

    /// Takes one more reference to the object at `obj`; see [`retain_model`].
    pub fn retain(&mut self, obj: GuestAddress) -> (r: Result<u32, ObjcError>)
        requires
            old(self).wf(),
        ensures
            final(self).wf(),
            final(self)@ == retain_model(old(self)@, obj).0,
            r == retain_model(old(self)@, obj).1,
    {
        if obj == 0 {
            return Ok(0);
        }
        let state: ObjectState = match self.objects.get(&obj) {
            Some(state) => *state,
            None => {
                return Err(ObjcError::Memory(MemError::OutOfBounds));
            },
        };
        if state.count == 0 {
            return Err(ObjcError::Memory(MemError::OutOfBounds));
        }
        if state.count == u32::MAX {
            return Ok(u32::MAX);
        }
        let count: u32 = state.count + 1;
        self.objects.insert(obj, ObjectState { class: state.class, count });
        Ok(count)
    }

    /// Gives up one reference to the object at `obj`; see [`release_model`].
    pub fn release(&mut self, obj: GuestAddress, mem: &mut Mem) -> (r: Result<
        Released,
        ObjcError,
    >)
        requires
            old(self).wf(),
            old(mem).wf(),
        ensures
            final(self).wf(),
            final(mem).wf(),
            final(mem).bytes() == old(mem).bytes(),
            final(self)@ == release_model(old(self)@, old(mem).live(), obj).0,
            final(mem).live() == release_model(old(self)@, old(mem).live(), obj).1,
            r == release_model(old(self)@, old(mem).live(), obj).2,
    {
        if obj == 0 {
            return Ok(Released::Nil);
        }
        let state: ObjectState = match self.objects.get(&obj) {
            Some(state) => *state,
            None => {
                return Err(ObjcError::DoubleRelease);
            },
        };
        if state.count == 0 {
            return Err(ObjcError::DoubleRelease);
        }
        if state.count > 1 {
            let count: u32 = state.count - 1;
            self.objects.insert(obj, ObjectState { class: state.class, count });
            return Ok(Released::Alive(count));
        }
        let teardown = self.teardown;
        match self.resolve_cached(state.class, teardown, MethodKind::Instance) {
            Some((_, imp)) => {
                self.objects.insert(obj, ObjectState { class: state.class, count: 0 });
                Ok(Released::Teardown(imp))
            },
            None => match mem.free(obj) {
                Err(e) => Err(ObjcError::Memory(e)),
                Ok(()) => {
                    self.objects.remove(&obj);
                    Ok(Released::Deallocated)
                },
            },
        }
    }

    /// Forgets the object at `obj`, whose teardown method has run, and frees
    /// its storage; see [`dealloc_model`].
    pub fn dealloc_object(&mut self, obj: GuestAddress, mem: &mut Mem) -> (r: Result<
        (),
        ObjcError,
    >)
        requires
            old(self).wf(),
            old(mem).wf(),
        ensures
            final(self).wf(),
            final(mem).wf(),
            final(mem).bytes() == old(mem).bytes(),
            final(self)@ == dealloc_model(old(self)@, old(mem).live(), obj).0,
            final(mem).live() == dealloc_model(old(self)@, old(mem).live(), obj).1,
            r == dealloc_model(old(self)@, old(mem).live(), obj).2,
    {
        let state: ObjectState = match self.objects.get(&obj) {
            Some(state) => *state,
            None => {
                return Err(ObjcError::DoubleRelease);
            },
        };
        if state.count != 0 {
            return Err(ObjcError::Memory(MemError::InvalidFree));
        }
        match mem.free(obj) {
            Err(e) => Err(ObjcError::Memory(e)),
            Ok(()) => {
                self.objects.remove(&obj);
                Ok(())
            },
        }
    }

    /// Opens an autorelease pool inside the ones that are open.
    pub fn push_pool(&mut self)
        requires
            old(self).wf(),
        ensures
            final(self).wf(),
            final(self)@ == (RuntimeView {
                pools: old(self)@.pools.push(Seq::empty()),
                ..old(self)@
            }),
    {
        self.pools.push(Vec::new());
        assert(final(self)@.pools =~= old(self)@.pools.push(Seq::empty()));
    }

    /// How many autorelease pools are open.
    pub fn pool_depth(&self) -> (n: usize)
        ensures
            n == self@.pools.len(),
    {
        self.pools.len()
    }

    /// Records `obj` on the innermost pool, to be released when that pool is
    /// closed; see [`autorelease_model`].
    pub fn autorelease(&mut self, obj: GuestAddress) -> (r: Result<GuestAddress, ObjcError>)
        requires
            old(self).wf(),
        ensures
            final(self).wf(),
            final(self)@ == autorelease_model(old(self)@, obj).0,
            r == autorelease_model(old(self)@, obj).1,
    {
        if obj == 0 {
            return Ok(0);
        }
        let mut top: Vec<GuestAddress> = match self.pools.pop() {
            Some(top) => top,
            None => {
                assert(old(self)@.pools.len() == 0);
                return Err(ObjcError::PoolUnderflow);
            },
        };
        top.push(obj);
        self.pools.push(top);
        assert(final(self)@.pools =~= old(self)@.pools.update(
            old(self)@.pools.len() - 1,
            old(self)@.pools.last().push(obj),
        ));
        Ok(obj)
    }

    /// Closes the innermost pool and releases every object recorded on it
    /// since it was opened, in the order in which they were recorded. Fails
    /// with `PoolUnderflow`, changing nothing, when no pool is open. A
    /// release that fails is reported in its place and does not stop the
    /// others.
    pub fn pop_pool(&mut self, mem: &mut Mem) -> (r: Result<Drained, ObjcError>)
        requires
            old(self).wf(),
            old(mem).wf(),
        ensures
            final(self).wf(),
            final(mem).wf(),
            final(mem).bytes() == old(mem).bytes(),
            r is Ok <==> old(self)@.pools.len() > 0,
            r is Err ==> r->Err_0 == ObjcError::PoolUnderflow && final(self)@ == old(self)@
                && final(mem).live() == old(mem).live(),
            r is Ok ==> {
                let drained = drain_model(
                    without_top_pool(old(self)@),
                    old(mem).live(),
                    old(self)@.pools.last(),
                    0,
                );
                &&& r->Ok_0.objects@ == old(self)@.pools.last()
                &&& r->Ok_0.outcomes@ == drained.2
                &&& final(self)@ == drained.0
                &&& final(mem).live() == drained.1
            },
    {
        let objs: Vec<GuestAddress> = match self.pools.pop() {
            Some(objs) => objs,
            None => {
                assert(self@ =~= old(self)@);
                return Err(ObjcError::PoolUnderflow);
            },
        };
        assert(self@ =~= without_top_pool(old(self)@));
        let ghost start = self@;
        let ghost live = mem.live();
        let mut outcomes: Vec<Result<Released, ObjcError>> = Vec::new();
        let mut i: usize = 0;
        while i < objs.len()
            invariant
                self.wf(),
                mem.wf(),
                mem.bytes() == old(mem).bytes(),
                i <= objs@.len(),
                drain_model(start, live, objs@, 0).0 == drain_model(
                    self@,
                    mem.live(),
                    objs@,
                    i as int,
                ).0,
                drain_model(start, live, objs@, 0).1 == drain_model(
                    self@,
                    mem.live(),
                    objs@,
                    i as int,
                ).1,
                drain_model(start, live, objs@, 0).2 == outcomes@ + drain_model(
                    self@,
                    mem.live(),
                    objs@,
                    i as int,
                ).2,
            decreases objs@.len() - i,
        {
            let ghost before = drain_model(self@, mem.live(), objs@, i as int);
            let outcome = self.release(objs[i], mem);
            outcomes.push(outcome);
            i += 1;
            proof {
                let after = drain_model(self@, mem.live(), objs@, i as int);
                assert(before.2 == seq![outcome] + after.2);
                assert(outcomes@ + after.2 =~= outcomes@.drop_last() + before.2);
            }
        }
        Ok(Drained { objects: objs, outcomes })
    }

    /// A copy of the runtime as it is now.
    pub fn snapshot(&self) -> (copy: Runtime)
        ensures
            copy@ == self@,
            self.wf() ==> copy.wf(),
    {
        let mut pools: Vec<Vec<GuestAddress>> = Vec::new();
        let mut i: usize = 0;
        while i < self.pools.len()
            invariant
                i <= self.pools@.len(),
                pools@.len() == i,
                forall|k: int| 0 <= k < i ==> (#[trigger] pools@[k])@ == self.pools@[k]@,
            decreases self.pools@.len() - i,
        {
            let pool = self.pools[i].clone();
            assert(pool@ =~= self.pools@[i as int]@);
            pools.push(pool);
            i += 1;
        }
        let copy = Runtime {
            selectors: self.selectors.snapshot(),
            classes: self.classes.snapshot(),
            objects: self.objects.clone(),
            pools,
            teardown: self.teardown,
            cache: self.cache.snapshot(),
        };
        assert(copy@.pools =~= self@.pools);
        copy
    }

    /// The chain walk from `class` for `sel`, answered from the cache where
    /// the same walk was made before.
    fn resolve_cached(&mut self, class: ClassId, sel: Selector, kind: MethodKind) -> (found:
        Option<(ClassId, Imp)>)
        requires
            old(self).wf(),
        ensures
            final(self).wf(),
            final(self)@ == old(self)@,
            found == resolve(old(self)@.classes, class, sel, kind),
    {
        match self.cache.get(class, sel, kind) {
            Some(found) => Some(found),
            None => {
                let found = self.classes.resolve(class, sel, kind);
                match found {
                    Some(found) => {
                        let ghost before = self.cache;
                        self.cache.put(class, sel, kind, found);
                        proof {
                            before.lemma_put_keeps_coherent(
                                &self.cache,
                                self.classes.classes(),
                                class,
                                sel,
                                kind,
                                found,
                            );
                        }
                    },
                    None => {},
                }
                found
            },
        }
    }

    /// Chain walk, then forwarding hook, then failure.
    fn dispatch_from(&mut self, class: ClassId, sel: Selector, kind: MethodKind) -> (r: Result<
        Dispatch,
        ObjcError,
    >)
        requires
            old(self).wf(),
        ensures
            final(self).wf(),
            final(self)@ == old(self)@,
            r == dispatch(old(self)@.classes, class, sel, kind),
    {
        match self.resolve_cached(class, sel, kind) {
            Some((owner, imp)) => Ok(Dispatch::Invoke { imp, class: owner }),
            None => match self.classes.forwarding(class) {
                Some(hook) => Ok(Dispatch::Forward { hook }),
                None => Err(ObjcError::DoesNotUnderstand { selector: sel, class }),
            },
        }
    }
}

} // verus!
