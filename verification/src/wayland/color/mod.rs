//! Color management: what clients say about the colorimetry of their contents.

pub mod chromaticities;
pub mod creator;
pub mod description;
pub mod laws;
pub mod manager;
pub mod promises;
