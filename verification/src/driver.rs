//! The execution driver's decisions. The processor core itself is outside
//! this crate: whoever owns it executes an instruction, tells the driver
//! what happened, and does what the driver answers.
//!
//! Guest code calls the host by reaching a trampoline. The host calls guest
//! code by pointing the core at a method with the return address set to a
//! reserved address, the host resume address, and running until the program
//! counter reaches it; such calls nest.

use crate::bridge::Bridge;
use crate::error::ExecError;
use crate::mem::{GuestAddress, MemError};
use crate::registry::HostBinding;
use vstd::prelude::*;

verus! {

/// The registers that the calling convention uses: four argument
/// registers, of which the first also holds the result, the stack pointer,
/// the return address and the program counter.
#[derive(Clone, Copy, Debug, PartialEq, Eq, Structural)]
pub struct Registers {
    pub r0: u32,
    pub r1: u32,
    pub r2: u32,
    pub r3: u32,
    pub sp: GuestAddress,
    pub lr: GuestAddress,
    pub pc: GuestAddress,
}

/// What the core reports after it was asked to execute one instruction.
#[derive(Clone, Copy, Debug, PartialEq, Eq, Structural)]
pub enum StepEvent {
    /// The instruction was executed.
    Executed,
    /// The instruction cannot be executed.
    IllegalInstruction,
    /// The instruction touched memory in a way that the memory manager
    /// refuses.
    Fault(MemError),
}

/// What is to be done after a step.
#[derive(Clone, Copy, Debug, PartialEq, Eq, Structural)]
pub enum Stepped {
    /// Nothing: go on.
    Continue,
    /// Call this host function with these arguments, then hand its result to
    /// [`return_from_host`].
    CallHost { function: usize, r0: u32, r1: u32, r2: u32, r3: u32 },
    /// This execution has failed for good.
    Fail(ExecError),
}

/// Why a run has ended.
#[derive(Clone, Copy, Debug, PartialEq, Eq, Structural)]
pub enum StopReason {
    /// The program counter is at the address to stop at.
    Sentinel,
    /// As many instructions as were allowed have been executed.
    Budget,
    /// The guest has reached a point at which it yields to the host.
    Yield,
    /// The host has asked for the run to end.
    Cancelled,
}

/// When a run is to end.
#[derive(Clone, Copy, Debug, PartialEq, Eq, Structural)]
pub struct StopCondition {
    /// Stop when the program counter is here.
    pub sentinel: Option<GuestAddress>,
    /// Stop after this many instructions.
    pub budget: Option<u64>,
}

/// The registers after a host call, or a trampoline for a constant, has
/// yielded `value`: the value is the result, and execution resumes at the
/// return address.
pub open spec fn returned(regs: Registers, value: u32) -> Registers {
    Registers { r0: value, pc: regs.lr, ..regs }
}

/// What a step comes to. A failure of the core ends the execution. Else,
/// where the program counter has reached a trampoline, the host takes
/// over: a constant is returned at once, a function is to be called.
pub open spec fn step_model(
    regs: Registers,
    table: Map<GuestAddress, HostBinding>,
    event: StepEvent,
) -> (Registers, Stepped) {
    match event {
        StepEvent::IllegalInstruction => (regs, Stepped::Fail(ExecError::IllegalInstruction)),
        StepEvent::Fault(e) => (regs, Stepped::Fail(ExecError::GuestFault(e))),
        StepEvent::Executed => if table.contains_key(regs.pc) {
            match table[regs.pc] {
                HostBinding::Constant(value) => (returned(regs, value), Stepped::Continue),
                HostBinding::Function(function) => (
                    regs,
                    Stepped::CallHost {
                        function,
                        r0: regs.r0,
                        r1: regs.r1,
                        r2: regs.r2,
                        r3: regs.r3,
                    },
                ),
            }
        } else {
            (regs, Stepped::Continue)
        },
    }
}

/// Whether a run is to end before the next instruction, and why. The
/// reasons are looked at in this order: the host has cancelled, the guest
/// has yielded, the program counter is at the sentinel, the budget is used
/// up.
pub open spec fn stop_model(
    condition: StopCondition,
    regs: Registers,
    steps: u64,
    yielded: bool,
    cancelled: bool,
) -> Option<StopReason> {
    if cancelled {
        Some(StopReason::Cancelled)
    } else if yielded {
        Some(StopReason::Yield)
    } else if condition.sentinel == Some(regs.pc) {
        Some(StopReason::Sentinel)
    } else if condition.budget is Some && steps >= condition.budget->Some_0 {
        Some(StopReason::Budget)
    } else {
        None
    }
}

/// Handles what the core reported after one instruction; see
/// [`step_model`].
pub fn after_step(regs: &mut Registers, bridge: &Bridge, event: StepEvent) -> (stepped: Stepped)
    ensures
        *final(regs) == step_model(*old(regs), bridge@, event).0,
        stepped == step_model(*old(regs), bridge@, event).1,
{
    match event {
        StepEvent::IllegalInstruction => Stepped::Fail(ExecError::IllegalInstruction),
        StepEvent::Fault(e) => Stepped::Fail(ExecError::GuestFault(e)),
        StepEvent::Executed => match bridge.on_trap(regs.pc) {
            Some(HostBinding::Constant(value)) => {
                regs.r0 = value;
                regs.pc = regs.lr;
                Stepped::Continue
            },
            Some(HostBinding::Function(function)) => Stepped::CallHost {
                function,
                r0: regs.r0,
                r1: regs.r1,
                r2: regs.r2,
                r3: regs.r3,
            },
            None => Stepped::Continue,
        },
    }
}

/// Hands the result of a host call back to the guest.
pub fn return_from_host(regs: &mut Registers, value: u32)
    ensures
        *final(regs) == returned(*old(regs), value),
{
    regs.r0 = value;
    regs.pc = regs.lr;
}

/// Whether a run is to end before the next instruction; see [`stop_model`].
pub fn should_stop(
    condition: &StopCondition,
    regs: &Registers,
    steps: u64,
    yielded: bool,
    cancelled: bool,
) -> (stop: Option<StopReason>)
    ensures
        stop == stop_model(*condition, *regs, steps, yielded, cancelled),
{
    if cancelled {
        return Some(StopReason::Cancelled);
    }
    if yielded {
        return Some(StopReason::Yield);
    }
    match condition.sentinel {
        Some(sentinel) => {
            if sentinel == regs.pc {
                return Some(StopReason::Sentinel);
            }
        },
        None => {},
    }
    match condition.budget {
        Some(budget) => {
            if steps >= budget {
                return Some(StopReason::Budget);
            }
        },
        None => {},
    }
    None
}

/// What a call from the host into guest code has put aside.
#[derive(Clone, Copy, Debug, PartialEq, Eq, Structural)]
pub struct Frame {
    pub lr: GuestAddress,
    pub pc: GuestAddress,
}

/// The registers at the start of a guest call: the arguments in place, the
/// return address at the host resume address, the program counter at the
/// method.
pub open spec fn entered(
    regs: Registers,
    resume: GuestAddress,
    target: GuestAddress,
    args: (u32, u32, u32, u32),
) -> Registers {
    Registers {
        r0: args.0,
        r1: args.1,
        r2: args.2,
        r3: args.3,
        sp: regs.sp,
        lr: resume,
        pc: target,
    }
}

/// The registers after a guest call has come back: return address and
/// program counter as they were put aside.
pub open spec fn left(regs: Registers, frame: Frame) -> Registers {
    Registers { lr: frame.lr, pc: frame.pc, ..regs }
}

/// The calls from the host into guest code that have not come back yet.
pub struct Driver {
    frames: Vec<Frame>,
    resume: GuestAddress,
}

impl Driver {
    /// The frames of the calls that have not come back, innermost last.
    pub closed spec fn frames(&self) -> Seq<Frame> {
        self.frames@
    }

    /// The host resume address.
    pub closed spec fn resume(&self) -> GuestAddress {
        self.resume
    }

    /// A driver with no call under way.
    pub fn new(resume: GuestAddress) -> (d: Driver)
        ensures
            d.frames() == Seq::<Frame>::empty(),
            d.resume() == resume,
    {
        Driver { frames: Vec::new(), resume }
    }

    /// The host resume address.
    pub fn resume_address(&self) -> (addr: GuestAddress)
        ensures
            addr == self.resume(),
    {
        self.resume
    }

    /// How many calls into guest code are under way.
    pub fn depth(&self) -> (n: usize)
        ensures
            n == self.frames().len(),
    {
        self.frames.len()
    }

    /// The condition under which the innermost guest call has come back:
    /// the program counter is at the host resume address.
    pub fn until_returned(&self) -> (condition: StopCondition)
        ensures
            condition == (StopCondition { sentinel: Some(self.resume()), budget: None }),
    {
        StopCondition { sentinel: Some(self.resume), budget: None }
    }

    /// Starts a call of the guest code at `target`: puts return address and
    /// program counter aside and sets the registers up.
    pub fn begin_guest_call(
        &mut self,
        regs: &mut Registers,
        target: GuestAddress,
        args: (u32, u32, u32, u32),
    )
        ensures
            final(self).resume() == old(self).resume(),
            final(self).frames() == old(self).frames().push(
                Frame { lr: old(regs).lr, pc: old(regs).pc },
            ),
            *final(regs) == entered(*old(regs), old(self).resume(), target, args),
    {
        self.frames.push(Frame { lr: regs.lr, pc: regs.pc });
        regs.r0 = args.0;
        regs.r1 = args.1;
        regs.r2 = args.2;
        regs.r3 = args.3;
        regs.lr = self.resume;
        regs.pc = target;
    }

    /// Ends the innermost guest call, which has come back: answers its
    /// result and restores what was put aside. Answers nothing, and changes
    /// nothing, where no call is under way or the program counter is not at
    /// the host resume address.
    pub fn end_guest_call(&mut self, regs: &mut Registers) -> (result: Option<u32>)
        ensures
            final(self).resume() == old(self).resume(),
            result is Some <==> old(self).frames().len() > 0 && old(regs).pc == old(self).resume(),
            result is Some ==> {
                &&& result == Some(old(regs).r0)
                &&& final(self).frames() == old(self).frames().drop_last()
                &&& *final(regs) == left(*old(regs), old(self).frames().last())
            },
            result is None ==> final(self).frames() == old(self).frames() && *final(regs) == *old(
                regs,
            ),
    {
        if regs.pc != self.resume {
            return None;
        }
        match self.frames.pop() {
            Some(frame) => {
                regs.lr = frame.lr;
                regs.pc = frame.pc;
                Some(regs.r0)
            },
            None => None,
        }
    }
}

/// A guest call that comes back leaves the driver as it was: after the call
/// was started and the guest has run to the host resume address with
/// `result` in place, ending the call yields `result`, the frames are those
/// from before the call, and return address and program counter are
/// restored. Calls nest: this holds at any depth.
pub proof fn lemma_guest_call_round_trip(
    frames: Seq<Frame>,
    regs: Registers,
    resume: GuestAddress,
    target: GuestAddress,
    args: (u32, u32, u32, u32),
    back: Registers,
)
    requires
        back.pc == resume,
    ensures
        ({
            let during = frames.push(Frame { lr: regs.lr, pc: regs.pc });
            &&& entered(regs, resume, target, args).lr == resume
            &&& entered(regs, resume, target, args).pc == target
            &&& during.drop_last() == frames
            &&& left(back, during.last()).pc == regs.pc
            &&& left(back, during.last()).lr == regs.lr
            &&& left(back, during.last()).r0 == back.r0
        }),
{
    let during = frames.push(Frame { lr: regs.lr, pc: regs.pc });
    assert(during.drop_last() =~= frames);
}

} // verus!
