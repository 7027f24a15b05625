//! Render pipeline specifications, vertex layouts, pass and draw enums.

pub mod encoder;
pub mod pass;
pub mod pipeline;
pub mod vertex;
pub mod setup;
