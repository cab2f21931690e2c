//! A verified model of a tiling window manager's event-driven core.
//!
//! The library maintains a hierarchy of monitors, workspaces, containers and
//! windows, and processes operating-system window-lifecycle notifications so
//! that the model stays consistent with the desktop's ground truth. Geometry
//! queries, the event channel and persistence are performed by the embedding
//! program, which hands the results in as plain values.

use vstd::prelude::*;

pub mod container;
pub mod drag;
pub mod errors;
pub mod geometry;
pub mod events;
pub mod laws;
pub mod layout;
pub mod manager;
pub mod monitor;
pub mod persist;
pub mod search;
pub mod workspace;

verus! {

} // verus!
