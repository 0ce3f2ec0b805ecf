//! Wayland protocol state: surface transactions and colour management.

pub mod atomicity;
pub mod barrier_laws;
pub mod blocker;
pub mod color;
pub mod forest;
pub mod promises;
pub mod surface_barrier;
pub mod transaction;
pub mod transaction_laws;
