//! Resolution of a browser version to a downloadable snapshot build, and the
//! decisions taken while such a build is unpacked.
//!
//! Every function here works on plain values. Network and filesystem access
//! belong to the caller, which feeds the state machines of this crate with
//! what it has read and carries out the actions they hand back.

pub mod builds;
pub mod chromium;
pub mod common;
pub mod extract;
pub mod firefox;
pub mod history;
pub mod platform;
pub mod text;
pub mod utils;
pub mod version;
