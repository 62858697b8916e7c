//! A software raycasting renderer: a tile grid world, a camera, DDA ray
//! traversal, and a depth-buffered column compositor with distance fog.
//!
//! All world-space geometry is carried in 16.16 fixed-point numbers, so the
//! whole pipeline is plain integer arithmetic and every stage is verified.
//! Windowing, input polling and asset files live outside the library; the
//! library consumes plain values (key states, decoded bitmap bytes, layout
//! text) and produces a pixel buffer.

pub mod fixed;
pub mod vec2;
pub mod util;
pub mod texture;
pub mod grid;
pub mod camera;
pub mod raycast;
pub mod framebuffer;

pub use fixed::Fx;
