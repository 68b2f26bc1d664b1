//! Proximity detection for a tick-driven entity-component simulation: the
//! radar's reconciliation of a shared position cache against the contacts it
//! published earlier, together with the addressing and routing it needs.

use vstd::prelude::*;

pub mod address;
pub mod cache;
pub mod components;
pub mod contacts;
pub mod dispatch;
pub mod error;
pub mod frame;
pub mod gateway;
pub mod keyed;
pub mod radar;
pub mod search;
pub mod settle;
pub mod text;

verus! {

/// Frames per second the radar asks the system manager for.
pub const FRAMERATE: u32 = 1;

} // verus!
