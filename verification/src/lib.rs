//! Core of a filesystem watch supervisor: a registry of watch roots, a
//! classifier that turns raw filesystem notifications into watch-scoped
//! semantic events, and the command transitions that keep the registry and
//! the subscription set in lockstep.

pub mod event;
pub mod path;
pub mod registry;
pub mod supervisor;
