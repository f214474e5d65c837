//! A minimal cooperative task scheduler.

pub mod executor;
pub mod future;
pub mod harness;
pub mod laws;
