//! Readiness polling for PopugOS: the bookkeeping of a `poll(2)`-based
//! selector (registrations, wake-ups, event collection), the readiness
//! queries on the events it reports, and the small conversions around its
//! system calls, each with a contract that states what it computes.

pub mod abi;
pub mod event;
pub mod io_source;
pub mod net;
pub mod selector;
pub mod text;
pub mod token;
