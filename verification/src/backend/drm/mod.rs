//! Color operations of display hardware.

pub mod colorop;
pub mod colorop_laws;
pub mod fixed_point;
pub mod promises;
pub mod transform;
