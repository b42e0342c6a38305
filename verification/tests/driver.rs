use touchhle::bridge::Bridge;
use touchhle::driver::{
    after_step, return_from_host, should_stop, Driver, Registers, StepEvent, Stepped,
    StopCondition, StopReason,
};
use touchhle::error::ExecError;
use touchhle::mem::MemError;
use touchhle::registry::{HostBinding, Registry};

fn regs(pc: u32, lr: u32) -> Registers {
    Registers { r0: 1, r1: 2, r2: 3, r3: 4, sp: 0x800, lr, pc }
}

#[test]
fn trap_on_a_constant_returns_its_value_to_the_caller() {
    let mut bridge = Bridge::new();
    bridge.bind(0x40, HostBinding::Constant(42));
    bridge.bind(0x44, HostBinding::Function(3));
    let mut r = regs(0x40, 0x104);
    assert_eq!(after_step(&mut r, &bridge, StepEvent::Executed), Stepped::Continue);
    assert_eq!(r, Registers { r0: 42, pc: 0x104, ..regs(0x40, 0x104) });

    let mut r = regs(0x44, 0x104);
    assert_eq!(
        after_step(&mut r, &bridge, StepEvent::Executed),
        Stepped::CallHost { function: 3, r0: 1, r1: 2, r2: 3, r3: 4 }
    );
    assert_eq!(r, regs(0x44, 0x104));
    return_from_host(&mut r, 7);
    assert_eq!(r, Registers { r0: 7, pc: 0x104, ..regs(0x44, 0x104) });

    let mut r = regs(0x48, 0x104);
    assert_eq!(after_step(&mut r, &bridge, StepEvent::Executed), Stepped::Continue);
    assert_eq!(r, regs(0x48, 0x104));
}

#[test]
fn core_failures_end_the_execution() {
    let bridge = Bridge::new();
    let mut r = regs(0x40, 0x104);
    assert_eq!(
        after_step(&mut r, &bridge, StepEvent::IllegalInstruction),
        Stepped::Fail(ExecError::IllegalInstruction)
    );
    assert_eq!(
        after_step(&mut r, &bridge, StepEvent::Fault(MemError::OutOfBounds)),
        Stepped::Fail(ExecError::GuestFault(MemError::OutOfBounds))
    );
    assert_eq!(r, regs(0x40, 0x104));
}

#[test]
fn a_run_stops_for_the_first_reason_that_holds() {
    let cond = StopCondition { sentinel: Some(0x40), budget: Some(10) };
    let at = regs(0x40, 0);
    let off = regs(0x44, 0);
    assert_eq!(should_stop(&cond, &off, 9, false, false), None);
    assert_eq!(should_stop(&cond, &off, 10, false, false), Some(StopReason::Budget));
    assert_eq!(should_stop(&cond, &at, 10, false, false), Some(StopReason::Sentinel));
    assert_eq!(should_stop(&cond, &at, 10, true, false), Some(StopReason::Yield));
    assert_eq!(should_stop(&cond, &at, 10, true, true), Some(StopReason::Cancelled));
    let open = StopCondition { sentinel: None, budget: None };
    assert_eq!(should_stop(&open, &at, u64::MAX, false, false), None);
}

#[test]
fn guest_calls_nest_and_restore_what_they_put_aside() {
    let mut driver = Driver::new(0xfff0);
    assert_eq!(driver.resume_address(), 0xfff0);
    let mut r = regs(0x100, 0x104);
    driver.begin_guest_call(&mut r, 0x200, (9, 8, 7, 6));
    assert_eq!(r, Registers { r0: 9, r1: 8, r2: 7, r3: 6, sp: 0x800, lr: 0xfff0, pc: 0x200 });
    assert_eq!(driver.depth(), 1);
    assert_eq!(
        driver.until_returned(),
        StopCondition { sentinel: Some(0xfff0), budget: None }
    );
    // Not back yet.
    assert_eq!(driver.end_guest_call(&mut r), None);
    // The guest method calls into the host, which calls the guest again.
    r.pc = 0x210;
    r.lr = 0x214;
    driver.begin_guest_call(&mut r, 0x300, (0, 0, 0, 0));
    assert_eq!(driver.depth(), 2);
    r.r0 = 55;
    r.pc = 0xfff0;
    assert_eq!(driver.end_guest_call(&mut r), Some(55));
    assert_eq!((r.pc, r.lr), (0x210, 0x214));
    r.r0 = 66;
    r.pc = 0xfff0;
    assert_eq!(driver.end_guest_call(&mut r), Some(66));
    assert_eq!((r.pc, r.lr), (0x100, 0x104));
    assert_eq!(driver.depth(), 0);
    assert_eq!(driver.end_guest_call(&mut r), None);
}

#[test]
fn registry_keeps_the_first_binding_of_a_name() {
    let mut registry = Registry::new();
    assert_eq!(registry.lookup(b"_puts"), None);
    assert!(registry.register(b"_puts", HostBinding::Function(1)));
    assert!(!registry.register(b"_puts", HostBinding::Function(2)));
    assert!(registry.register(b"_put", HostBinding::Constant(3)));
    assert_eq!(registry.lookup(b"_puts"), Some(HostBinding::Function(1)));
    assert_eq!(registry.lookup(b"_put"), Some(HostBinding::Constant(3)));
    assert_eq!(registry.lookup(b"puts"), None);
    assert_eq!(registry.len(), 2);
}
