//! The top-level context: everything that one emulated process owns.

use crate::bridge::{invocation_of, Bridge, Invocation};
use crate::class::{class_index, MethodKind};
use crate::error::{LoadError, ObjcError};
use crate::frameworks::State;
use crate::image::parse_spec;
use crate::loader::{bindings_of, image_regions, image_trampolines, load, load_model, LoadedImage};
use crate::mem::{GuestAddress, Mem, MemoryRegion};
use crate::names::{name_of, utf8};
use crate::registry::{HostBinding, Registry};
use crate::runtime::{
    dispatch, send_outcome, teardown_name, with_selector, Dispatch, ObjectState, Runtime,
};
use crate::selector::selector_index;
use vstd::prelude::*;

verus! {

/// One emulated process: its memory, its object runtime, the host symbols
/// that images may import, the trampolines that stand for them, and the
/// state of the frameworks.
pub struct Environment {
    pub mem: Mem,
    pub objc: Runtime,
    pub registry: Registry,
    pub bridge: Bridge,
    pub framework_state: State,
}

/// What a message send comes to once the implementation is known.
#[derive(Clone, Copy, Debug, PartialEq, Eq, Structural)]
pub enum Answer {
    /// The send is answered with this implementation, carried out so.
    Invoke(Invocation),
    /// No class answers the selector: it is offered to this forwarding
    /// hook, carried out so.
    Forward(Invocation),
}

/// What answering a dispatch comes to, given the trampolines. A send to
/// null has the value zero.
pub open spec fn answer_of(
    table: Map<GuestAddress, HostBinding>,
    sent: Result<Dispatch, ObjcError>,
) -> Result<Answer, ObjcError> {
    match sent {
        Ok(Dispatch::Nil) => Ok(Answer::Invoke(Invocation::Value(0))),
        Ok(Dispatch::Invoke { imp, class }) => Ok(Answer::Invoke(invocation_of(table, imp))),
        Ok(Dispatch::Forward { hook }) => Ok(Answer::Forward(invocation_of(table, hook))),
        Err(e) => Err(e),
    }
}

impl Environment {
    /// The memory and the runtime are in order.
    pub open spec fn wf(&self) -> bool {
        self.mem.wf() && self.objc.wf()
    }

    /// Whether a class called `name` is registered.
    pub open spec fn knows_class(&self, name: Seq<char>) -> bool {
        class_index(self.objc@.classes, utf8(name)) is Some
    }

    /// A process with `space` bytes of memory and nothing in it.
    pub fn new(space: u32) -> (env: Environment)
        ensures
            env.wf(),
            env.mem.space() == space,
            env.mem.live() == Set::<MemoryRegion>::empty(),
            forall|i: int| 0 <= i < space ==> env.mem.bytes()[i] == 0,
            env.objc@.selectors == seq![teardown_name()],
            env.objc@.classes.len() == 0,
            env.objc@.objects == Map::<GuestAddress, ObjectState>::empty(),
            env.objc@.pools.len() == 0,
            env.registry.entries().len() == 0,
            env.bridge@ == Map::<GuestAddress, HostBinding>::empty(),
            env.framework_state.is_fresh(),
    {
        Environment {
            mem: Mem::new(space),
            objc: Runtime::new(),
            registry: Registry::new(),
            bridge: Bridge::new(),
            framework_state: State::new(),
        }
    }

    /// Loads an image into this process, resolving its imports against the
    /// registry; see [`load_model`]. A load that fails changes nothing.
    pub fn load(&mut self, file: &[u8]) -> (r: Result<LoadedImage, LoadError>)
        requires
            old(self).wf(),
        ensures
            final(self).wf(),
            final(self).registry == old(self).registry,
            final(self).framework_state == old(self).framework_state,
            match load_model(
                file@,
                old(self).registry.entries(),
                old(self).mem@,
                old(self).objc@,
                old(self).bridge@,
            ) {
                Ok(done) => {
                    let img = parse_spec(file@)->Some_0;
                    &&& r is Ok
                    &&& final(self).mem@ == done.mem
                    &&& final(self).objc@ == done.objc
                    &&& final(self).bridge@ == done.bridge
                    &&& r->Ok_0.regions@ == image_regions(img, done.base)
                    &&& r->Ok_0.trampolines@ == image_trampolines(
                        bindings_of(old(self).registry.entries(), file@, img.imports),
                        done.base,
                    )
                    &&& r->Ok_0.classes@ == Seq::new(
                        img.classes.len(),
                        |i: int| (old(self).objc@.classes.len() + i) as usize,
                    )
                },
                Err(failure) => {
                    &&& r is Err
                    &&& r->Err_0@ == failure
                    &&& final(self).mem@ == old(self).mem@
                    &&& final(self).objc@ == old(self).objc@
                    &&& final(self).bridge@ == old(self).bridge@
                },
            },
    {
        load(file, &self.registry, &mut self.mem, &mut self.objc, &mut self.bridge)
    }

    /// Sends the selector called `selector` to the object at `receiver` and
    /// says what the answer comes to: a value where the receiver is null or
    /// the implementation is a trampoline for a constant, else the host
    /// function to call or the guest code to run.
    pub fn send(&mut self, receiver: GuestAddress, selector: &str) -> (r: Result<
        Answer,
        ObjcError,
    >)
        requires
            old(self).wf(),
        ensures
            final(self).wf(),
            final(self).mem == old(self).mem,
            final(self).registry == old(self).registry,
            final(self).bridge == old(self).bridge,
            final(self).framework_state == old(self).framework_state,
            final(self).objc@ == with_selector(old(self).objc@, utf8(selector@)),
            r == answer_of(
                old(self).bridge@,
                send_outcome(
                    old(self).objc@,
                    receiver,
                    selector_index(old(self).objc@.selectors, utf8(selector@)),
                ),
            ),
    {
        match self.msg(receiver, selector) {
            Ok(Dispatch::Nil) => Ok(Answer::Invoke(Invocation::Value(0))),
            Ok(Dispatch::Invoke { imp, class }) => Ok(Answer::Invoke(self.bridge.invoke(imp))),
            Ok(Dispatch::Forward { hook }) => Ok(Answer::Forward(self.bridge.invoke(hook))),
            Err(e) => Err(e),
        }
    }

    /// Whether a class called `name` is registered.
    pub fn has_class(&self, name: &str) -> (known: bool)
        requires
            self.wf(),
        ensures
            known == self.knows_class(name@),
    {
        let name = name_of(name);
        self.objc.find_class(name.as_slice()).is_some()
    }

    /// Answers a send of the selector called `selector` to the object at
    /// `receiver`. The selector is interned on the way.
    pub fn msg(&mut self, receiver: GuestAddress, selector: &str) -> (r: Result<
        Dispatch,
        ObjcError,
    >)
        requires
            old(self).wf(),
        ensures
            final(self).wf(),
            final(self).mem == old(self).mem,
            final(self).registry == old(self).registry,
            final(self).bridge == old(self).bridge,
            final(self).framework_state == old(self).framework_state,
            final(self).objc@ == with_selector(old(self).objc@, utf8(selector@)),
            r == send_outcome(
                old(self).objc@,
                receiver,
                selector_index(old(self).objc@.selectors, utf8(selector@)),
            ),
    {
        let name = name_of(selector);
        let sel = self.objc.selector(name.as_slice());
        self.objc.send_message(receiver, sel)
    }

    /// Answers a send of the selector called `selector` to the class called
    /// `class` itself. The selector is interned on the way.
    pub fn msg_class(&mut self, class: &str, selector: &str) -> (r: Result<Dispatch, ObjcError>)
        requires
            old(self).wf(),
            old(self).knows_class(class@),
        ensures
            final(self).wf(),
            final(self).mem == old(self).mem,
            final(self).registry == old(self).registry,
            final(self).bridge == old(self).bridge,
            final(self).framework_state == old(self).framework_state,
            final(self).objc@ == with_selector(old(self).objc@, utf8(selector@)),
            r == dispatch(
                old(self).objc@.classes,
                class_index(old(self).objc@.classes, utf8(class@))->Some_0,
                selector_index(old(self).objc@.selectors, utf8(selector@)),
                MethodKind::Class,
            ),
    {
        let class_name = name_of(class);
        let class_id = match self.objc.find_class(class_name.as_slice()) {
            Some(id) => id,
            None => {
                proof {
                    assert(false);
                }
                0
            },
        };
        let name = name_of(selector);
        let sel = self.objc.selector(name.as_slice());
        self.objc.send_class_message(class_id, sel)
    }
}

} // verus!
