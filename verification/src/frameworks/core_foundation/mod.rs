//! Core Foundation.

pub mod cf_run_loop;
