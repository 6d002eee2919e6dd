//! Pointer interaction: hit-testing and dragging.

pub mod drag;
pub mod interact;
