//! The decision logic of a Wayland compositor's colour and rendering paths, with contracts
//! proved by Verus.
//!
//! Every function here works on plain values: object ids, raw handles, bit patterns and
//! integer geometry. Talking to the kernel, to a Vulkan driver or to Wayland clients is left
//! to the code around the library, which performs the actions returned here and feeds the
//! outcomes back in.

pub mod backend;
pub mod table;
pub mod text;
pub mod wayland;
