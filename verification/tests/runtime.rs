use touchhle::class::{ClassDef, ClassId, Imp, Method, MethodKind};
use touchhle::error::ObjcError;
use touchhle::mem::{Mem, MemError};
use touchhle::runtime::{Dispatch, ObjectState, Released, Runtime};
use touchhle::selector::{Selector, SelectorTable};

fn class(
    name: &str,
    superclass: Option<&str>,
    size: u32,
    methods: Vec<Method>,
    class_methods: Vec<Method>,
    forwarding: Option<Imp>,
) -> ClassDef {
    ClassDef {
        name: name.as_bytes().to_vec(),
        superclass: superclass.map(|s| s.as_bytes().to_vec()),
        instance_size: size,
        methods,
        class_methods,
        forwarding,
    }
}

fn plain(rt: &mut Runtime, name: &str, superclass: Option<&str>, methods: Vec<Method>) -> ClassId {
    rt.register_class(class(name, superclass, 8, methods, vec![], None)).unwrap()
}

#[test]
fn equal_names_intern_to_the_same_selector() {
    let mut table = SelectorTable::new();
    let a = table.intern(b"init");
    let b = table.intern(b"dealloc");
    let c = table.intern(b"init");
    assert_eq!(a, c);
    assert_ne!(a, b);
    assert_eq!((a, b), (Selector { index: 0 }, Selector { index: 1 }));
    assert_eq!(table.len(), 2);
    assert_eq!(table.lookup(b"dealloc"), Some(b));
    assert_eq!(table.lookup(b"deallo"), None);
    assert_eq!(table.name(b), Some(b"dealloc".to_vec()));
    assert_eq!(table.name(Selector { index: 2 }), None);
}

#[test]
fn a_new_runtime_knows_only_the_teardown_selector() {
    let mut rt = Runtime::new();
    let teardown = rt.teardown_selector();
    assert_eq!(rt.selector_name(teardown), Some(b"dealloc".to_vec()));
    assert_eq!(rt.selector(b"dealloc"), teardown);
    assert_eq!(rt.find_selector(b"init"), None);
    assert_eq!(rt.class_count(), 0);
    assert_eq!(rt.pool_depth(), 0);
}

#[test]
fn classes_register_in_dependency_order() {
    let mut rt = Runtime::new();
    assert_eq!(
        rt.register_class(class("B", Some("A"), 4, vec![], vec![], None)),
        Err(ObjcError::UnknownSuperclass)
    );
    assert_eq!(rt.register_class(class("A", None, 4, vec![], vec![], None)), Ok(0));
    assert_eq!(rt.register_class(class("B", Some("A"), 4, vec![], vec![], None)), Ok(1));
    assert_eq!(
        rt.register_class(class("A", Some("Nope"), 4, vec![], vec![], None)),
        Err(ObjcError::DuplicateClass)
    );
    assert_eq!(rt.class_count(), 2);
    assert_eq!(rt.find_class(b"B"), Some(1));
    assert_eq!(rt.find_class(b"C"), None);
    assert_eq!(rt.class_name(1), Some(b"B".to_vec()));
    assert_eq!(rt.class_name(2), None);
    assert!(rt.class_is_subclass_of(1, 0));
    assert!(rt.class_is_subclass_of(1, 1));
    assert!(!rt.class_is_subclass_of(0, 1));
    assert!(!rt.class_is_subclass_of(2, 0));
}

#[test]
fn subclass_instance_reaches_inherited_method() {
    let mut rt = Runtime::new();
    let mut mem = Mem::new(256);
    let s = rt.selector(b"describe");
    let t = rt.selector(b"other");
    let c2 = plain(&mut rt, "C2", None, vec![Method { selector: s, imp: Imp::Host(2) }]);
    let mid = plain(&mut rt, "Mid", Some("C2"), vec![Method { selector: t, imp: Imp::Host(5) }]);
    let c1 = plain(&mut rt, "C1", Some("Mid"), vec![]);
    let obj = rt.alloc_object(c1, &mut mem).unwrap();
    assert_eq!(rt.send_message(obj, s), Ok(Dispatch::Invoke { imp: Imp::Host(2), class: c2 }));
    assert_eq!(rt.send_message(obj, t), Ok(Dispatch::Invoke { imp: Imp::Host(5), class: mid }));
    // An override nearer to the object wins.
    let c0 = plain(&mut rt, "C0", Some("C1"), vec![Method { selector: s, imp: Imp::Guest(0x40) }]);
    let obj0 = rt.alloc_object(c0, &mut mem).unwrap();
    assert_eq!(
        rt.send_message(obj0, s),
        Ok(Dispatch::Invoke { imp: Imp::Guest(0x40), class: c0 })
    );
    assert_eq!(rt.send_message(obj, s), Ok(Dispatch::Invoke { imp: Imp::Host(2), class: c2 }));
}

#[test]
fn unanswered_selector_fails_with_selector_and_dynamic_class() {
    let mut rt = Runtime::new();
    let mut mem = Mem::new(256);
    let s = rt.selector(b"describe");
    let unknown = rt.selector(b"fly");
    let _base = plain(&mut rt, "Base", None, vec![Method { selector: s, imp: Imp::Host(2) }]);
    let derived = plain(&mut rt, "Derived", Some("Base"), vec![]);
    let obj = rt.alloc_object(derived, &mut mem).unwrap();
    assert_eq!(
        rt.send_message(obj, unknown),
        Err(ObjcError::DoesNotUnderstand { selector: unknown, class: derived })
    );
    assert_eq!(rt.selector_name(unknown), Some(b"fly".to_vec()));
    assert_eq!(rt.class_name(derived), Some(b"Derived".to_vec()));
    // A selector that no table holds at all.
    let stray = Selector { index: 99 };
    assert_eq!(
        rt.send_message(obj, stray),
        Err(ObjcError::DoesNotUnderstand { selector: stray, class: derived })
    );
}

#[test]
fn null_receiver_yields_nil_and_dead_address_is_refused() {
    let mut rt = Runtime::new();
    let s = rt.selector(b"describe");
    assert_eq!(rt.send_message(0, s), Ok(Dispatch::Nil));
    assert_eq!(rt.send_message(0x20, s), Err(ObjcError::Memory(MemError::OutOfBounds)));
}

#[test]
fn forwarding_hook_is_offered_what_the_chain_does_not_define() {
    let mut rt = Runtime::new();
    let mut mem = Mem::new(256);
    let s = rt.selector(b"describe");
    let unknown = rt.selector(b"fly");
    rt.register_class(class(
        "Proxy",
        None,
        4,
        vec![Method { selector: s, imp: Imp::Host(1) }],
        vec![],
        Some(Imp::Host(9)),
    ))
    .unwrap();
    let sub = plain(&mut rt, "Sub", Some("Proxy"), vec![]);
    let obj = rt.alloc_object(sub, &mut mem).unwrap();
    assert_eq!(rt.send_message(obj, unknown), Ok(Dispatch::Forward { hook: Imp::Host(9) }));
    assert_eq!(rt.send_message(obj, s), Ok(Dispatch::Invoke { imp: Imp::Host(1), class: 0 }));
}

#[test]
fn class_messages_use_the_class_method_tables() {
    let mut rt = Runtime::new();
    let s = rt.selector(b"shared");
    let i = rt.selector(b"instanceOnly");
    let base = rt
        .register_class(class(
            "Base",
            None,
            4,
            vec![Method { selector: i, imp: Imp::Host(1) }],
            vec![Method { selector: s, imp: Imp::Host(2) }],
            None,
        ))
        .unwrap();
    let sub = plain(&mut rt, "Sub", Some("Base"), vec![]);
    assert_eq!(
        rt.send_class_message(sub, s),
        Ok(Dispatch::Invoke { imp: Imp::Host(2), class: base })
    );
    assert_eq!(
        rt.send_class_message(sub, i),
        Err(ObjcError::DoesNotUnderstand { selector: i, class: sub })
    );
    assert_eq!(
        rt.send_class_message(7, s),
        Err(ObjcError::DoesNotUnderstand { selector: s, class: 7 })
    );
}

#[test]
fn retains_then_releases_deallocate_exactly_once() {
    let mut rt = Runtime::new();
    let mut mem = Mem::new(256);
    let cls = plain(&mut rt, "Plain", None, vec![]);
    let obj = rt.alloc_object(cls, &mut mem).unwrap();
    assert_eq!(rt.object(obj), Some(ObjectState { class: cls, count: 1 }));
    let n = 5;
    for k in 0..n {
        assert_eq!(rt.retain(obj), Ok(k + 2));
    }
    for k in 0..n {
        assert_eq!(rt.release(obj, &mut mem), Ok(Released::Alive(n - k)));
        assert!(mem.region_at(obj).is_some());
    }
    assert_eq!(rt.release(obj, &mut mem), Ok(Released::Deallocated));
    assert_eq!(rt.object(obj), None);
    assert!(mem.region_at(obj).is_none());
    assert_eq!(rt.release(obj, &mut mem), Err(ObjcError::DoubleRelease));
    assert_eq!(rt.retain(obj), Err(ObjcError::Memory(MemError::OutOfBounds)));
    assert_eq!(rt.dealloc_object(obj, &mut mem), Err(ObjcError::DoubleRelease));
    assert_eq!(rt.release(0, &mut mem), Ok(Released::Nil));
    assert_eq!(rt.retain(0), Ok(0));
}

#[test]
fn teardown_runs_once_before_storage_is_reclaimed() {
    let mut rt = Runtime::new();
    let mut mem = Mem::new(256);
    let teardown = rt.teardown_selector();
    let _root =
        plain(&mut rt, "Root", None, vec![Method { selector: teardown, imp: Imp::Host(3) }]);
    let cls = plain(&mut rt, "Leaf", Some("Root"), vec![]);
    let obj = rt.alloc_object(cls, &mut mem).unwrap();
    assert_eq!(rt.retain(obj), Ok(2));
    assert_eq!(rt.release(obj, &mut mem), Ok(Released::Alive(1)));
    assert_eq!(rt.release(obj, &mut mem), Ok(Released::Teardown(Imp::Host(3))));
    // The teardown method has not run yet: the storage is still there.
    assert!(mem.region_at(obj).is_some());
    assert_eq!(rt.object(obj), Some(ObjectState { class: cls, count: 0 }));
    // It is handed out once only.
    assert_eq!(rt.release(obj, &mut mem), Err(ObjcError::DoubleRelease));
    assert_eq!(rt.retain(obj), Err(ObjcError::Memory(MemError::OutOfBounds)));
    assert_eq!(rt.dealloc_object(obj, &mut mem), Ok(()));
    assert!(mem.region_at(obj).is_none());
    assert_eq!(rt.object(obj), None);
    assert_eq!(rt.dealloc_object(obj, &mut mem), Err(ObjcError::DoubleRelease));
}

#[test]
fn reclaiming_a_referenced_object_is_refused() {
    let mut rt = Runtime::new();
    let mut mem = Mem::new(256);
    let cls = plain(&mut rt, "Plain", None, vec![]);
    let obj = rt.alloc_object(cls, &mut mem).unwrap();
    assert_eq!(rt.dealloc_object(obj, &mut mem), Err(ObjcError::Memory(MemError::InvalidFree)));
    assert_eq!(rt.object(obj), Some(ObjectState { class: cls, count: 1 }));
    // Storage that was freed behind the runtime's back cannot be freed again.
    assert_eq!(mem.free(obj), Ok(()));
    assert_eq!(rt.release(obj, &mut mem), Err(ObjcError::Memory(MemError::InvalidFree)));
    assert_eq!(rt.object(obj), Some(ObjectState { class: cls, count: 1 }));
}

#[test]
fn objects_need_a_registered_class_and_free_storage() {
    let mut rt = Runtime::new();
    let mut mem = Mem::new(16);
    assert_eq!(rt.alloc_object(0, &mut mem), Err(ObjcError::Memory(MemError::OutOfBounds)));
    let cls = plain(&mut rt, "Plain", None, vec![]);
    assert_eq!(rt.alloc_object(cls, &mut mem), Ok(4));
    assert_eq!(rt.alloc_object(cls, &mut mem), Err(ObjcError::Memory(MemError::OutOfMemory)));
}

#[test]
fn nested_autorelease_pools_release_what_was_recorded_since_their_push() {
    let mut rt = Runtime::new();
    let mut mem = Mem::new(256);
    let cls = plain(&mut rt, "Plain", None, vec![]);
    let a = rt.alloc_object(cls, &mut mem).unwrap();
    let b = rt.alloc_object(cls, &mut mem).unwrap();
    let c = rt.alloc_object(cls, &mut mem).unwrap();
    rt.push_pool();
    assert_eq!(rt.autorelease(a), Ok(a));
    assert_eq!(rt.autorelease(b), Ok(b));
    rt.push_pool();
    assert_eq!(rt.autorelease(c), Ok(c));
    assert_eq!(rt.pool_depth(), 2);

    let inner = rt.pop_pool(&mut mem).unwrap();
    assert_eq!(inner.objects, vec![c]);
    assert_eq!(inner.outcomes, vec![Ok(Released::Deallocated)]);
    assert_eq!(rt.object(c), None);
    assert_eq!(rt.object(a), Some(ObjectState { class: cls, count: 1 }));
    assert_eq!(rt.object(b), Some(ObjectState { class: cls, count: 1 }));

    let outer = rt.pop_pool(&mut mem).unwrap();
    assert_eq!(outer.objects, vec![a, b]);
    assert_eq!(outer.outcomes, vec![Ok(Released::Deallocated), Ok(Released::Deallocated)]);
    assert_eq!(rt.object(a), None);
    assert_eq!(rt.object(b), None);
    assert_eq!(rt.pool_depth(), 0);
    assert_eq!(rt.pop_pool(&mut mem).err(), Some(ObjcError::PoolUnderflow));
}

#[test]
fn autorelease_without_a_pool_underflows() {
    let mut rt = Runtime::new();
    let mut mem = Mem::new(256);
    let cls = plain(&mut rt, "Plain", None, vec![]);
    let a = rt.alloc_object(cls, &mut mem).unwrap();
    assert_eq!(rt.autorelease(a), Err(ObjcError::PoolUnderflow));
    assert_eq!(rt.autorelease(0), Ok(0));
    rt.push_pool();
    assert_eq!(rt.retain(a), Ok(2));
    assert_eq!(rt.autorelease(a), Ok(a));
    assert_eq!(rt.autorelease(a), Ok(a));
    assert_eq!(rt.autorelease(a), Ok(a));
    let drained = rt.pop_pool(&mut mem).unwrap();
    assert_eq!(
        drained.outcomes,
        vec![Ok(Released::Alive(1)), Ok(Released::Deallocated), Err(ObjcError::DoubleRelease)]
    );
}

#[test]
fn snapshot_is_independent_of_its_source() {
    let mut rt = Runtime::new();
    let mut mem = Mem::new(64);
    let cls = plain(&mut rt, "Plain", None, vec![]);
    let obj = rt.alloc_object(cls, &mut mem).unwrap();
    let saved = rt.snapshot();
    let saved_mem = mem.snapshot();
    assert_eq!(rt.release(obj, &mut mem), Ok(Released::Deallocated));
    assert_eq!(saved.object(obj), Some(ObjectState { class: cls, count: 1 }));
    assert!(saved_mem.region_at(obj).is_some());
    assert_eq!(saved.find_class(b"Plain"), Some(cls));
}

#[test]
fn added_method_replaces_the_own_entry_and_answers_sends() {
    let mut rt = Runtime::new();
    let mut mem = Mem::new(256);
    let s = rt.selector(b"describe");
    let t = rt.selector(b"other");
    let base = plain(&mut rt, "Base", None, vec![Method { selector: s, imp: Imp::Host(1) }]);
    let sub = plain(&mut rt, "Sub", Some("Base"), vec![]);
    let obj = rt.alloc_object(sub, &mut mem).unwrap();
    // Asked twice, so that the second answer comes from the cache.
    assert_eq!(rt.send_message(obj, s), Ok(Dispatch::Invoke { imp: Imp::Host(1), class: base }));
    assert_eq!(rt.send_message(obj, s), Ok(Dispatch::Invoke { imp: Imp::Host(1), class: base }));
    assert!(rt.add_method(sub, MethodKind::Instance, Method { selector: s, imp: Imp::Host(7) }));
    assert_eq!(rt.send_message(obj, s), Ok(Dispatch::Invoke { imp: Imp::Host(7), class: sub }));
    assert!(rt.add_method(sub, MethodKind::Instance, Method { selector: s, imp: Imp::Host(8) }));
    assert_eq!(rt.send_message(obj, s), Ok(Dispatch::Invoke { imp: Imp::Host(8), class: sub }));
    assert!(rt.add_method(base, MethodKind::Class, Method { selector: t, imp: Imp::Host(9) }));
    assert_eq!(
        rt.send_class_message(sub, t),
        Ok(Dispatch::Invoke { imp: Imp::Host(9), class: base })
    );
    assert!(!rt.add_method(5, MethodKind::Instance, Method { selector: s, imp: Imp::Host(7) }));
    let base_obj = rt.alloc_object(base, &mut mem).unwrap();
    assert_eq!(
        rt.send_message(base_obj, s),
        Ok(Dispatch::Invoke { imp: Imp::Host(1), class: base })
    );
}

#[test]
fn repeated_sends_agree_while_classes_are_registered() {
    let mut rt = Runtime::new();
    let mut mem = Mem::new(256);
    let s = rt.selector(b"describe");
    let base = plain(&mut rt, "Base", None, vec![Method { selector: s, imp: Imp::Host(1) }]);
    let obj = rt.alloc_object(base, &mut mem).unwrap();
    let first = rt.send_message(obj, s);
    let sub = plain(&mut rt, "Sub", Some("Base"), vec![Method { selector: s, imp: Imp::Host(2) }]);
    let sub_obj = rt.alloc_object(sub, &mut mem).unwrap();
    assert_eq!(rt.send_message(obj, s), first);
    assert_eq!(first, Ok(Dispatch::Invoke { imp: Imp::Host(1), class: base }));
    assert_eq!(rt.send_message(sub_obj, s), Ok(Dispatch::Invoke { imp: Imp::Host(2), class: sub }));
    assert_eq!(rt.send_message(sub_obj, s), Ok(Dispatch::Invoke { imp: Imp::Host(2), class: sub }));
    let saved = rt.snapshot();
    let mut saved = saved;
    assert_eq!(saved.send_message(obj, s), first);
}
