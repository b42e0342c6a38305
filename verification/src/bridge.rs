//! The call bridge: the crossing point from emulated instructions to host
//! code. A trampoline is a guest address that stands for a host function or
//! constant; when the program counter reaches one, the host takes over.

use crate::class::Imp;
use crate::mem::GuestAddress;
use crate::registry::HostBinding;
use std::collections::HashMap;
use vstd::prelude::*;

verus! {

broadcast use vstd::std_specs::hash::group_hash_axioms;

/// A guest address that stands for a host function or constant.
#[derive(Clone, Copy, Debug, PartialEq, Eq, Structural)]
pub struct Trampoline {
    pub addr: GuestAddress,
    pub binding: HostBinding,
}

/// Where trampoline number `i` stands, of those that start at `base`: each
/// takes four bytes.
pub open spec fn trampoline_addr(base: GuestAddress, i: int) -> GuestAddress {
    (base + 4 * i) as u32
}

/// The table after the first `upto` of `bindings` were bound to the
/// trampolines that start at `base`.
pub open spec fn bound(
    table: Map<GuestAddress, HostBinding>,
    base: GuestAddress,
    bindings: Seq<HostBinding>,
    upto: int,
) -> Map<GuestAddress, HostBinding>
    decreases upto,
{
    if upto <= 0 {
        table
    } else {
        bound(table, base, bindings, upto - 1).insert(
            trampoline_addr(base, upto - 1),
            bindings[upto - 1],
        )
    }
}

/// What carrying out an implementation comes to.
#[derive(Clone, Copy, Debug, PartialEq, Eq, Structural)]
pub enum Invocation {
    /// Nothing is to be run: this is the result.
    Value(u32),
    /// Call the host function with this number.
    Host(usize),
    /// Run guest code from this address.
    Guest(GuestAddress),
}

/// What carrying out `imp` comes to, given the trampolines: a guest address
/// that is a trampoline stands for its binding.
pub open spec fn invocation_of(table: Map<GuestAddress, HostBinding>, imp: Imp) -> Invocation {
    match imp {
        Imp::Host(function) => Invocation::Host(function),
        Imp::Guest(addr) => if table.contains_key(addr) {
            match table[addr] {
                HostBinding::Constant(value) => Invocation::Value(value),
                HostBinding::Function(function) => Invocation::Host(function),
            }
        } else {
            Invocation::Guest(addr)
        },
    }
}

/// The trampoline table: which guest address stands for which binding.
pub struct Bridge {
    trampolines: HashMap<GuestAddress, HostBinding>,
}

impl View for Bridge {
    type V = Map<GuestAddress, HostBinding>;

    closed spec fn view(&self) -> Map<GuestAddress, HostBinding> {
        self.trampolines@
    }
}

impl Bridge {
    /// A bridge without trampolines.
    pub fn new() -> (b: Bridge)
        ensures
            b@ == Map::<GuestAddress, HostBinding>::empty(),
    {
        Bridge { trampolines: HashMap::new() }
    }

    /// Makes `addr` stand for `binding`, whatever it stood for.
    pub fn bind(&mut self, addr: GuestAddress, binding: HostBinding)
        ensures
            final(self)@ == old(self)@.insert(addr, binding),
    {
        self.trampolines.insert(addr, binding);
    }

    /// What the program counter `pc` traps to: the binding that `pc` stands
    /// for, or nothing where `pc` is no trampoline and stepping goes on.
    pub fn on_trap(&self, pc: GuestAddress) -> (trap: Option<HostBinding>)
        ensures
            trap == (if self@.contains_key(pc) {
                Some(self@[pc])
            } else {
                None
            }),
    {
        match self.trampolines.get(&pc) {
            Some(binding) => Some(*binding),
            None => None,
        }
    }

    /// What carrying out `imp` comes to.
    pub fn invoke(&self, imp: Imp) -> (invocation: Invocation)
        ensures
            invocation == invocation_of(self@, imp),
    {
        match imp {
            Imp::Host(function) => Invocation::Host(function),
            Imp::Guest(addr) => match self.on_trap(addr) {
                Some(HostBinding::Constant(value)) => Invocation::Value(value),
                Some(HostBinding::Function(function)) => Invocation::Host(function),
                None => Invocation::Guest(addr),
            },
        }
    }

    /// A copy of the table.
    pub fn snapshot(&self) -> (copy: Bridge)
        ensures
            copy@ == self@,
    {
        Bridge { trampolines: self.trampolines.clone() }
    }
}

} // verus!
