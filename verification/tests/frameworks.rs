use touchhle::class::{ClassDef, Imp, Method};
use touchhle::environment::Environment;
use touchhle::error::ObjcError;
use touchhle::frameworks::core_foundation::cf_run_loop::{
    is_supported_mode, kCFRunLoopCommonModes, kCFRunLoopDefaultMode, kCFRunLoopRunFinished,
    CFRunLoopGetCurrent, CFRunLoopGetMain, CFRunLoopRunInMode, RunInMode, RunLoopRun,
};
use touchhle::frameworks::foundation::ns_user_defaults;
use touchhle::frameworks::foundation::ns_user_defaults::NSUserDefaultsHostObject;
use touchhle::frameworks::uikit::ui_view::ui_window;
use touchhle::frameworks::uikit::ui_view::ui_window::AddSubview;
use touchhle::runtime::Dispatch;

fn env_with_run_loop() -> Environment {
    let mut env = Environment::new(0x1000);
    let main = env.objc.selector(b"mainRunLoop");
    let current = env.objc.selector(b"currentRunLoop");
    env.objc
        .register_class(ClassDef {
            name: b"NSRunLoop".to_vec(),
            superclass: None,
            instance_size: 4,
            methods: vec![],
            class_methods: vec![
                Method { selector: main, imp: Imp::Host(10) },
                Method { selector: current, imp: Imp::Host(11) },
            ],
            forwarding: None,
        })
        .unwrap();
    env
}

#[test]
fn run_loop_getters_send_to_the_run_loop_class() {
    let mut env = env_with_run_loop();
    assert!(env.has_class("NSRunLoop"));
    assert!(!env.has_class("NSRunLoo"));
    assert_eq!(CFRunLoopGetMain(&mut env), Ok(Dispatch::Invoke { imp: Imp::Host(10), class: 0 }));
    assert_eq!(
        CFRunLoopGetCurrent(&mut env),
        Ok(Dispatch::Invoke { imp: Imp::Host(11), class: 0 })
    );
}

#[test]
fn run_loop_getter_fails_where_the_class_does_not_answer() {
    let mut env = Environment::new(0x100);
    env.objc
        .register_class(ClassDef {
            name: b"NSRunLoop".to_vec(),
            superclass: None,
            instance_size: 4,
            methods: vec![],
            class_methods: vec![],
            forwarding: None,
        })
        .unwrap();
    let r = CFRunLoopGetMain(&mut env);
    let main = env.objc.find_selector(b"mainRunLoop").unwrap();
    assert_eq!(r, Err(ObjcError::DoesNotUnderstand { selector: main, class: 0 }));
    assert!(CFRunLoopRunInMode(&mut env, b"kCFRunLoopDefaultMode", 0, false).is_err());
}

#[test]
fn run_in_mode_runs_one_iteration_for_zero_seconds() {
    let mut env = env_with_run_loop();
    let current = Dispatch::Invoke { imp: Imp::Host(11), class: 0 };
    assert_eq!(
        CFRunLoopRunInMode(&mut env, kCFRunLoopDefaultMode.as_bytes(), 0.0f64.to_bits(), false),
        Ok(RunInMode { current_run_loop: current, run: RunLoopRun::SingleIteration, result: 1 })
    );
    assert_eq!(
        CFRunLoopRunInMode(&mut env, kCFRunLoopCommonModes.as_bytes(), (-0.0f64).to_bits(), true),
        Ok(RunInMode { current_run_loop: current, run: RunLoopRun::SingleIteration, result: 1 })
    );
    let half = 0.5f64.to_bits();
    assert_eq!(
        CFRunLoopRunInMode(&mut env, kCFRunLoopDefaultMode.as_bytes(), half, false),
        Ok(RunInMode {
            current_run_loop: current,
            run: RunLoopRun::UntilSecondsFromNow(half),
            result: kCFRunLoopRunFinished,
        })
    );
}

#[test]
fn only_default_and_common_modes_are_supported() {
    assert!(is_supported_mode(b"kCFRunLoopDefaultMode"));
    assert!(is_supported_mode(b"kCFRunLoopCommonModes"));
    assert!(!is_supported_mode(b"UITrackingRunLoopMode"));
    assert!(!is_supported_mode(b""));
}

#[test]
fn user_defaults_state_remembers_the_shared_object() {
    let mut env = Environment::new(0x100);
    assert_eq!(ns_user_defaults::State::get(&mut env).standard_defaults(), None);
    ns_user_defaults::State::get(&mut env).set_standard_defaults(0x40);
    assert_eq!(ns_user_defaults::State::get(&mut env).standard_defaults(), Some(0x40));
    assert_eq!(ns_user_defaults::State::default().standard_defaults(), None);
}

#[test]
fn user_defaults_domains_are_searched_in_order() {
    assert_eq!(ns_user_defaults::object_for_key(1, 2, 3), 1);
    assert_eq!(ns_user_defaults::object_for_key(0, 2, 3), 2);
    assert_eq!(ns_user_defaults::object_for_key(0, 0, 3), 3);
    assert_eq!(ns_user_defaults::object_for_key(0, 0, 0), 0);
    let mut host = NSUserDefaultsHostObject::new();
    assert_eq!(
        host,
        NSUserDefaultsHostObject {
            global_domain_dict: 0,
            app_domain_dict: 0,
            registration_domain_dict: 0
        }
    );
    host.global_domain_dict = 0x10;
    host.app_domain_dict = 0x20;
    assert_eq!(host.merge_order(), vec![0x10, 0x20]);
    assert_eq!(host.registration_dict(0x30), 0x30);
    assert_eq!(host.registration_dict(0x50), 0x30);
    assert_eq!(host.merge_order(), vec![0x30, 0x10, 0x20]);
}

#[test]
fn string_for_key_yields_only_strings() {
    let mut env = Environment::new(0x100);
    let def = |name: &str, superclass: Option<&str>| ClassDef {
        name: name.as_bytes().to_vec(),
        superclass: superclass.map(|s| s.as_bytes().to_vec()),
        instance_size: 4,
        methods: vec![],
        class_methods: vec![],
        forwarding: None,
    };
    let string = env.objc.register_class(def("NSString", None)).unwrap();
    let mutable = env.objc.register_class(def("NSMutableString", Some("NSString"))).unwrap();
    let number = env.objc.register_class(def("NSNumber", None)).unwrap();
    let data = env.objc.register_class(def("NSData", None)).unwrap();
    assert_eq!(ns_user_defaults::string_for_key(&env, 0x40, mutable, string, number), 0x40);
    assert_eq!(ns_user_defaults::string_for_key(&env, 0x40, string, string, number), 0x40);
    assert_eq!(ns_user_defaults::string_for_key(&env, 0x40, data, string, number), 0);
    assert_eq!(ns_user_defaults::string_for_key(&env, 0, string, string, number), 0);
}

#[test]
fn windows_join_and_leave_the_visible_list() {
    let mut state = ui_window::State::default();
    assert!(state.visible_windows.is_empty());
    assert_eq!(state.key_window, None);
    state.window_created(0x10);
    state.window_created(0x20);
    state.window_created(0x10);
    assert_eq!(state.visible_windows, vec![0x10, 0x20, 0x10]);
    assert!(state.is_visible(0x20));
    assert!(!state.is_visible(0x30));
    // Hiding takes the first occurrence out.
    state.hidden_changed(0x10, false, true);
    assert_eq!(state.visible_windows, vec![0x20, 0x10]);
    // No change of the flag, no change of the list.
    state.hidden_changed(0x20, false, false);
    state.hidden_changed(0x30, true, true);
    assert_eq!(state.visible_windows, vec![0x20, 0x10]);
    state.hidden_changed(0x30, true, false);
    assert_eq!(state.visible_windows, vec![0x20, 0x10, 0x30]);
}

#[test]
fn key_window_is_cleared_when_it_is_deallocated() {
    let mut state = ui_window::State::default();
    state.window_created(0x10);
    state.window_created(0x20);
    state.make_key(0x20);
    assert_eq!(state.key_window, Some(0x20));
    state.window_deallocated(0x10, false);
    assert_eq!(state.key_window, Some(0x20));
    assert_eq!(state.visible_windows, vec![0x20]);
    state.window_deallocated(0x20, true);
    assert_eq!(state.key_window, None);
    assert_eq!(state.visible_windows, vec![0x20]);
}

#[test]
fn only_views_with_a_controller_are_told_of_their_appearance() {
    assert_eq!(ui_window::add_subview(0, 0x50), AddSubview::Plain);
    assert_eq!(ui_window::add_subview(0x40, 0), AddSubview::Plain);
    assert_eq!(ui_window::add_subview(0x40, 0x50), AddSubview::Appearing(0x50));
    assert_eq!(ui_window::UIKeyboardBoundsUserInfoKey, "UIKeyboardBoundsUserInfoKey");
}
