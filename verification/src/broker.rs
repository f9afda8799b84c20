//! The transactional gate between an agent's sandbox and the real world.
//!
//! Every external effect flows through a two-phase lifecycle:
//!
//! ```text
//! propose → prepare (dry-run preview) → approve → COMMIT-TIME REVALIDATION → commit
//!                                                        │ any check fails
//!                                                        └────────→ abort (StaleAuthorization)
//! ```
//!
//! Connectors are asked outside: the broker hands out what a connector has to
//! do, and is told what came of it.
pub mod effects;
pub mod model;
pub mod secrets;
