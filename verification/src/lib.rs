//! A cursor over an immutable source text, patterns that move it on, and
//! range markers that say where in the text something went wrong.

pub mod encoding;
pub mod input;
pub mod laws;
pub mod lines;
pub mod pattern;
pub mod render;
pub mod span;

pub use input::Input;
pub use pattern::Exact;
pub use span::Span;
