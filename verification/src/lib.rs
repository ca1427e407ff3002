//! A configurable binary-to-text dump library.
//!
//! A small configuration is compiled into an ordered sequence of rendering
//! elements; a byte stream is then filtered to a selected range, grouped into
//! lines of bounded width (with optional early termination on sentinel byte
//! values), and each line is rendered through the element sequence into
//! ASCII text.

pub mod radix;
pub mod format;
pub mod render;
pub mod pipeline;
pub mod range;

pub use format::{Args, Element};
pub use radix::Base;
pub use range::parse_range;
