//! Field-band coloring for terminal text effects, and the plain-value
//! parts of the browser session around them.

pub mod catalog;
pub mod engine;
pub mod session;
pub mod utils;
