//! Service logs: capturing, rotating, filtering and rendering them.

pub mod ansi;
pub mod bytes;
pub mod files;
pub mod filter;
pub mod instant;
pub mod line;
pub mod live;
pub mod pattern;
pub mod rotate;
pub mod size;
pub mod tail;
pub mod utf8;
pub mod view;
pub mod writer;
