//! Discrete core of a free-flying camera viewer: key bindings and the
//! per-frame motion plan they produce, the camera state with the viewport
//! that gives its aspect ratio, and the fixed byte layout of the per-frame
//! parameter block that the shader reads.
pub mod camera;
pub mod input;
pub mod uniform;
