//! Countermeasures against fault injection for firmware that runs without an
//! operating system.
//!
//! An attacker who can glitch the supply voltage or the clock may skip a
//! single instruction or corrupt a single value. The operations of
//! [`FaultInjectionPrevention`] decide and access memory redundantly, so that
//! one such fault is detected, and answer every detected fault with a device
//! reset.
//!
//! The platform and the caller's closures are sealed in the types of
//! [`platform`], which make every call of them through one record. The
//! contracts of the operations state that record step by step.

pub mod canary;
pub mod engine;
pub mod guard;
mod hardening;
pub mod jitter;
pub mod memory;
pub mod platform;
pub mod secure_bool;

pub use canary::RefCanaryStack;
pub use engine::FaultInjectionPrevention;
pub use guard::{Halted, Outcome};
pub use jitter::RandomError;
pub use platform::{Action, Effect, Machine, Platform, Query, Sealed, Source};
pub use secure_bool::{SecureBool, TriStateCode};
