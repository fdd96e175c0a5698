//! Verified core of a Rust binding to `libplctag`: status codes, tag path
//! building, value outcome rules, event bookkeeping and the tag pool state.

pub mod builder;
pub mod cell;
pub mod co;
pub mod debug;
pub mod derive;
pub mod entry;
pub mod event;
pub mod op;
pub mod park;
pub mod raw;
pub mod pool;
pub mod status;
pub mod text;

pub use raw::{RawTag, TagId};
pub use status::Status;
