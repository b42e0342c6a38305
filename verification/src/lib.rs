//! Core of a high-level emulator for a mobile operating system's application
//! binary interface: the emulated guest memory space, the dynamically-typed
//! object runtime, the loader with its symbol resolver, and the bridge between
//! emulated instructions and host functions.
//!
//! Every guest pointer is an offset into one flat buffer owned by [`mem::Mem`];
//! nothing in this crate holds a host pointer into guest data.
//!
//! - [`mem`]: the address space, its regions, checked access.
//! - [`selector`], [`class`], [`cache`], [`runtime`]: interned selectors, the
//!   class table with its chain walk, the dispatch cache, and objects with
//!   their reference counts and autorelease pools.
//! - [`registry`], [`image`], [`loader`]: the host symbols, the container
//!   format, and the all-or-nothing load.
//! - [`bridge`], [`driver`]: trampolines, and what each step of the processor
//!   core comes to.
//! - [`environment`]: one emulated process.
//! - [`frameworks`]: what the frameworks keep between calls.

pub mod bridge;
pub mod cache;
pub mod class;
pub mod driver;
pub mod environment;
pub mod error;
pub mod frameworks;
pub mod image;
pub mod loader;
pub mod mem;
pub mod names;
pub mod registry;
pub mod runtime;
pub mod selector;
