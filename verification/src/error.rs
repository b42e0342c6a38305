//! The errors of the object runtime, the loader and guest execution. The
//! memory manager's own errors are [`crate::mem::MemError`].

use crate::class::ClassId;
use crate::mem::MemError;
use crate::selector::Selector;
use vstd::prelude::*;

verus! {

/// Ways in which an operation of the object runtime can fail.
#[derive(Clone, Copy, Debug, PartialEq, Eq, Structural)]
pub enum ObjcError {
    /// A class of that name is registered already.
    DuplicateClass,
    /// The named superclass is not registered.
    UnknownSuperclass,
    /// Neither the receiver's class chain nor a forwarding hook answers the
    /// selector. `class` is the receiver's dynamic class.
    DoesNotUnderstand { selector: Selector, class: ClassId },
    /// The object has no reference left to give up.
    DoubleRelease,
    /// No autorelease pool is open.
    PoolUnderflow,
    /// The memory manager refused.
    Memory(MemError),
}

/// Ways in which loading an image can fail. Each of them aborts the load
/// and leaves nothing of the image behind.
#[derive(Debug, PartialEq, Eq)]
pub enum LoadError {
    /// The registry has no binding for this imported symbol.
    UnresolvedSymbol(Vec<u8>),
    /// The file is no well-formed image.
    MalformedBinary,
    /// A class of the image could not be registered.
    Class(ObjcError),
    /// The memory manager refused a segment, the trampolines or a
    /// relocation.
    Memory(MemError),
}

/// Ways in which guest execution can fail.
#[derive(Clone, Copy, Debug, PartialEq, Eq, Structural)]
pub enum ExecError {
    /// The processor core met an instruction that it cannot execute.
    IllegalInstruction,
    /// Guest code touched memory in a way that the memory manager refuses.
    GuestFault(MemError),
}

} // verus!
