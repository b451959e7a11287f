//! Terminal styling for trace output.
//!
//! A [`style::Style`] holds a list of Select Graphic Rendition (SGR)
//! codes. Applying a style wraps a text payload in the corresponding
//! escape sequence and a trailing reset; the payload itself is never
//! altered, and the plain style is the identity. The [`visible`] module
//! defines the visible content of a styled string — what a style-capable
//! terminal displays — and proves that styling leaves it exactly the
//! payload. A [`theme::Theme`] names one style per semantic role, and
//! [`render`] builds the styled trace lines from a theme; writing them
//! out is left to the caller.

pub mod render;
pub mod style;
pub mod theme;
pub mod visible;
