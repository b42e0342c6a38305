//! `NSUserDefaults`.

use crate::environment::Environment;
use crate::mem::GuestAddress;
use vstd::prelude::*;

verus! {

/// What `NSUserDefaults` keeps between calls.
pub struct State {
    /// The shared `NSUserDefaults*`, once it was created.
    standard_defaults: Option<GuestAddress>,
}

impl State {
    /// The shared defaults object, once it was created.
    pub closed spec fn shared(&self) -> Option<GuestAddress> {
        self.standard_defaults
    }

    /// Whether this is the state at process start: no shared defaults
    /// object yet.
    pub open spec fn is_fresh(&self) -> bool {
        self.shared() is None
    }

    /// The state at process start: no shared defaults object yet.
    pub fn new() -> (s: State)
        ensures
            s.is_fresh(),
    {
        State { standard_defaults: None }
    }

    /// This framework's state inside `env`.
    pub fn get(env: &mut Environment) -> (state: &mut State)
        ensures
            *state == old(env).framework_state.foundation.ns_user_defaults,
            final(env).framework_state.foundation.ns_user_defaults == *final(state),
            final(env).framework_state.uikit == old(env).framework_state.uikit,
            final(env).mem == old(env).mem,
            final(env).objc == old(env).objc,
            final(env).registry == old(env).registry,
            final(env).bridge == old(env).bridge,
    {
        &mut env.framework_state.foundation.ns_user_defaults
    }

    /// The shared defaults object, once it was created.
    pub fn standard_defaults(&self) -> (shared: Option<GuestAddress>)
        ensures
            shared == self.shared(),
    {
        self.standard_defaults
    }

    /// Records the shared defaults object.
    pub fn set_standard_defaults(&mut self, defaults: GuestAddress)
        ensures
            final(self).shared() == Some(defaults),
    {
        self.standard_defaults = Some(defaults);
    }
}

/// What an `NSUserDefaults` object holds on the host side: one dictionary
/// for each domain, null while there is none.
#[derive(Clone, Copy, Debug, PartialEq, Eq, Structural)]
pub struct NSUserDefaultsHostObject {
    /// Defaults that all applications see. Not kept on disk.
    pub global_domain_dict: GuestAddress,
    /// The application's own preferences. Kept on disk.
    pub app_domain_dict: GuestAddress,
    /// Defaults that the application registered for this run. Looked at
    /// last. Not kept on disk.
    pub registration_domain_dict: GuestAddress,
}

/// What a key stands for, given what each domain holds for it: the
/// application's own value, else the global one, else the registered one.
pub open spec fn first_found(app: GuestAddress, global: GuestAddress, registration: GuestAddress)
    -> GuestAddress {
    if app != 0 {
        app
    } else if global != 0 {
        global
    } else {
        registration
    }
}

/// Which value `stringForKey:` yields for a value of a class that is, or is
/// not, a string class: the value itself where it is a string, else null.
pub open spec fn string_value(value: GuestAddress, is_string: bool) -> GuestAddress {
    if value != 0 && is_string {
        value
    } else {
        0
    }
}

impl NSUserDefaultsHostObject {
    /// The host side of a defaults object that was just allocated: no
    /// dictionary yet.
    pub fn new() -> (host: NSUserDefaultsHostObject)
        ensures
            host == (NSUserDefaultsHostObject {
                global_domain_dict: 0,
                app_domain_dict: 0,
                registration_domain_dict: 0,
            }),
    {
        NSUserDefaultsHostObject {
            global_domain_dict: 0,
            app_domain_dict: 0,
            registration_domain_dict: 0,
        }
    }

    /// The dictionaries whose entries make up the dictionary representation,
    /// in the order in which they are added, so that a later one overrides an
    /// earlier one: the registration domain if there is one, the global
    /// domain, the application's domain.
    pub fn merge_order(&self) -> (dicts: Vec<GuestAddress>)
        ensures
            dicts@ == (if self.registration_domain_dict != 0 {
                seq![self.registration_domain_dict, self.global_domain_dict, self.app_domain_dict]
            } else {
                seq![self.global_domain_dict, self.app_domain_dict]
            }),
    {
        let mut dicts: Vec<GuestAddress> = Vec::new();
        if self.registration_domain_dict != 0 {
            dicts.push(self.registration_domain_dict);
        }
        dicts.push(self.global_domain_dict);
        dicts.push(self.app_domain_dict);
        dicts
    }

    /// The dictionary that registered defaults are added to: the one of the
    /// registration domain, or `fresh` where there was none, which then
    /// becomes it.
    pub fn registration_dict(&mut self, fresh: GuestAddress) -> (dict: GuestAddress)
        ensures
            dict == (if old(self).registration_domain_dict != 0 {
                old(self).registration_domain_dict
            } else {
                fresh
            }),
            *final(self) == (NSUserDefaultsHostObject {
                registration_domain_dict: dict,
                ..*old(self)
            }),
    {
        if self.registration_domain_dict == 0 {
            self.registration_domain_dict = fresh;
        }
        self.registration_domain_dict
    }
}

/// What a key stands for, given what each domain holds for it.
pub fn object_for_key(app: GuestAddress, global: GuestAddress, registration: GuestAddress) -> (value:
    GuestAddress)
    ensures
        value == first_found(app, global, registration),
{
    if app != 0 {
        return app;
    }
    if global != 0 {
        return global;
    }
    registration
}

/// What `stringForKey:` yields for `value`, whose class is `class`: the
/// value where that class is a string class, else null. A number is not
/// converted.
pub fn string_for_key(
    env: &Environment,
    value: GuestAddress,
    class: crate::class::ClassId,
    string_class: crate::class::ClassId,
    number_class: crate::class::ClassId,
) -> (string: GuestAddress)
    requires
        value != 0 ==> crate::class::is_subclass(env.objc@.classes, class, string_class)
            || !crate::class::is_subclass(env.objc@.classes, class, number_class),
    ensures
        string == string_value(
            value,
            crate::class::is_subclass(env.objc@.classes, class, string_class),
        ),
{
    if value == 0 {
        return 0;
    }
    if env.objc.class_is_subclass_of(class, string_class) {
        return value;
    }
    0
}

impl Default for State {
    fn default() -> (s: State)
        ensures
            s.is_fresh(),
    {
        State::new()
    }
}

} // verus!
