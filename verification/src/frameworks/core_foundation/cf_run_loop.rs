//! `CFRunLoop`. Here it is the same type as `NSRunLoop`.
#![allow(non_snake_case)]
#![allow(non_upper_case_globals)]

use crate::class::{class_index, MethodKind};
use crate::environment::Environment;
use crate::error::ObjcError;
use crate::names::{name_of, same_bytes, utf8};
use crate::runtime::{dispatch, with_selector, Dispatch};
use crate::selector::selector_index;
use vstd::prelude::*;

verus! {

/// Name of the common run loop modes.
pub const kCFRunLoopCommonModes: &'static str = "kCFRunLoopCommonModes";

/// Name of the default run loop mode.
pub const kCFRunLoopDefaultMode: &'static str = "kCFRunLoopDefaultMode";

/// What a finished run yields.
pub const kCFRunLoopRunFinished: i32 = 1;

/// How the current run loop is to be run.
#[derive(Clone, Copy, Debug, PartialEq, Eq, Structural)]
pub enum RunLoopRun {
    /// Run one iteration and come back.
    SingleIteration,
    /// Run until this many seconds from now have passed. The seconds are the
    /// bits of an IEEE 754 double.
    UntilSecondsFromNow(u64),
}

/// What `CFRunLoopRunInMode` asks for and yields.
#[derive(Clone, Copy, Debug, PartialEq, Eq, Structural)]
pub struct RunInMode {
    /// Which implementation yields the current run loop.
    pub current_run_loop: Dispatch,
    /// How that run loop is to be run.
    pub run: RunLoopRun,
    /// What the call yields once the run has ended.
    pub result: i32,
}

/// Name of the default run loop mode.
pub open spec fn default_mode() -> Seq<u8> {
    utf8(kCFRunLoopDefaultMode@)
}

/// Name of the common run loop modes.
pub open spec fn common_modes() -> Seq<u8> {
    utf8(kCFRunLoopCommonModes@)
}

/// Whether a run loop can be run in `mode`: only in the default mode and in
/// the common modes.
pub open spec fn supported_mode(mode: Seq<u8>) -> bool {
    mode == default_mode() || mode == common_modes()
}

/// Whether `seconds`, the bits of an IEEE 754 double, are zero of either
/// sign.
pub open spec fn is_zero_interval(seconds: u64) -> bool {
    seconds == 0 || seconds == 0x8000_0000_0000_0000
}

/// How a run loop is run for `seconds`: one iteration for zero, else until
/// that much time has passed.
pub open spec fn run_for(seconds: u64) -> RunLoopRun {
    if is_zero_interval(seconds) {
        RunLoopRun::SingleIteration
    } else {
        RunLoopRun::UntilSecondsFromNow(seconds)
    }
}

/// Whether a run loop can be run in `mode`.
pub fn is_supported_mode(mode: &[u8]) -> (supported: bool)
    ensures
        supported == supported_mode(mode@),
{
    let default_mode = name_of(kCFRunLoopDefaultMode);
    let common_modes = name_of(kCFRunLoopCommonModes);
    same_bytes(mode, default_mode.as_slice()) || same_bytes(mode, common_modes.as_slice())
}

/// Answers `[NSRunLoop currentRunLoop]`: which implementation yields the
/// current run loop.
pub fn CFRunLoopGetCurrent(env: &mut Environment) -> (r: Result<Dispatch, ObjcError>)
    requires
        old(env).wf(),
        old(env).knows_class("NSRunLoop"@),
    ensures
        final(env).wf(),
        final(env).mem == old(env).mem,
        final(env).registry == old(env).registry,
        final(env).bridge == old(env).bridge,
        final(env).framework_state == old(env).framework_state,
        final(env).objc@ == with_selector(old(env).objc@, utf8("currentRunLoop"@)),
        r == dispatch(
            old(env).objc@.classes,
            class_index(old(env).objc@.classes, utf8("NSRunLoop"@))->Some_0,
            selector_index(old(env).objc@.selectors, utf8("currentRunLoop"@)),
            MethodKind::Class,
        ),
{
    env.msg_class("NSRunLoop", "currentRunLoop")
}

/// Runs the current run loop in `mode` for `seconds`, the bits of an IEEE
/// 754 double: says which implementation yields the current run loop and how
/// that loop is to be run, one iteration for zero seconds and else until the
/// time has passed. The call then yields `kCFRunLoopRunFinished`. Only the
/// default mode and the common modes are supported.
pub fn CFRunLoopRunInMode(
    env: &mut Environment,
    mode: &[u8],
    seconds: u64,
    _return_something: bool,
) -> (r: Result<RunInMode, ObjcError>)
    requires
        old(env).wf(),
        old(env).knows_class("NSRunLoop"@),
        supported_mode(mode@),
    ensures
        final(env).wf(),
        final(env).mem == old(env).mem,
        final(env).registry == old(env).registry,
        final(env).bridge == old(env).bridge,
        final(env).framework_state == old(env).framework_state,
        final(env).objc@ == with_selector(old(env).objc@, utf8("currentRunLoop"@)),
        r == match dispatch(
            old(env).objc@.classes,
            class_index(old(env).objc@.classes, utf8("NSRunLoop"@))->Some_0,
            selector_index(old(env).objc@.selectors, utf8("currentRunLoop"@)),
            MethodKind::Class,
        ) {
            Ok(current_run_loop) => Ok(
                RunInMode {
                    current_run_loop,
                    run: run_for(seconds),
                    result: kCFRunLoopRunFinished,
                },
            ),
            Err(e) => Err(e),
        },
{
    let current_run_loop = match CFRunLoopGetCurrent(env) {
        Ok(found) => found,
        Err(e) => {
            return Err(e);
        },
    };
    let run = if seconds == 0 || seconds == 0x8000_0000_0000_0000 {
        RunLoopRun::SingleIteration
    } else {
        RunLoopRun::UntilSecondsFromNow(seconds)
    };
    Ok(RunInMode { current_run_loop, run, result: kCFRunLoopRunFinished })
}

/// Answers `[NSRunLoop mainRunLoop]`: which implementation yields the main
/// run loop.
pub fn CFRunLoopGetMain(env: &mut Environment) -> (r: Result<Dispatch, ObjcError>)
    requires
        old(env).wf(),
        old(env).knows_class("NSRunLoop"@),
    ensures
        final(env).wf(),
        final(env).mem == old(env).mem,
        final(env).registry == old(env).registry,
        final(env).bridge == old(env).bridge,
        final(env).framework_state == old(env).framework_state,
        final(env).objc@ == with_selector(old(env).objc@, utf8("mainRunLoop"@)),
        r == dispatch(
            old(env).objc@.classes,
            class_index(old(env).objc@.classes, utf8("NSRunLoop"@))->Some_0,
            selector_index(old(env).objc@.selectors, utf8("mainRunLoop"@)),
            MethodKind::Class,
        ),
{
    env.msg_class("NSRunLoop", "mainRunLoop")
}

} // verus!
