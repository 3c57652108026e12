//! Value-to-text rendering into a shared growable output buffer.
//!
//! Strings, characters, booleans, integers and filesystem paths are
//! turned into their textual form and appended to a [`buffer::Buffer`],
//! either raw or with the four reserved HTML metacharacters replaced by
//! their named entities.  Every render call appends exactly the text its
//! contract names, so the buffer ends up holding the concatenation of the
//! individual outputs in call order.

pub mod buffer;
pub mod escape;
pub mod integer;
pub mod render;

pub use buffer::Buffer;
pub use render::Render;
pub use render::RenderError;
