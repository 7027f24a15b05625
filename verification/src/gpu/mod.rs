//! Plain data of the Metal compute and render layer: error values, Metal
//! constants and value types, and the render pipeline / vertex layout
//! specifications that are turned into Metal descriptors.

pub mod checks;
pub mod command;
pub mod error;
pub mod ffi;
pub mod render;
