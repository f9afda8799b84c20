//! The backend router and step scheduler.
//!
//! Intent hints (free text on actions) may warm backends or workspaces so that
//! likely-next steps start faster. They are never an input to the routing
//! floor: a hint cannot lower the isolation requirement of a risk tier, select
//! a backend that fails the floor, or widen any confinement.

pub mod router;
pub mod step;
