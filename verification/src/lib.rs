//! Runtime support for compiled templates: a growable text buffer that is the
//! single output sink of a render, and the `Render` protocol by which values
//! append their raw or HTML-escaped text form to it.

pub mod buffer;
pub mod decimal;
pub mod escape;
pub mod float;
pub mod render;
pub mod text;

pub use buffer::Buffer;
pub use render::{Render, RenderError};
