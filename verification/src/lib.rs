//! Lazy text formatting: a `join` operation that attaches to any renderable
//! separator and produces a one-shot, lazily rendered join object, plus a
//! `LazyFormat` wrapper that lets a closure participate in the render
//! protocol directly.

pub mod join;
pub mod lazy_format;
pub mod render;
pub mod sink;

pub use crate::join::DisplayableJoin;
pub use crate::join::Join;
pub use crate::lazy_format::LazyFormat;
pub use crate::lazy_format::lazy_text;
pub use crate::render::Decimal;
pub use crate::render::Render;
pub use crate::render::Text;
pub use crate::sink::Sink;
pub use crate::sink::WriteError;
