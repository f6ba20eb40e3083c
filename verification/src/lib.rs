//! A plugin framework core: identifiers, the event and command APIs that
//! plugins use, and the host-side registries that order and dispatch them.
use vstd::prelude::*;

pub mod command;
pub mod event;
pub mod host;
pub mod identifier;
pub mod order;
pub mod plugin;
pub mod strmap;
pub mod dispatch;
pub mod registry;

verus! {
} // verus!
