//! A software 3D rasterizer over fixed-point coordinates.
//!
//! Geometry is carried in a signed 16.16 fixed-point representation
//! (see [`fixed`]), which keeps every arithmetic step exact and lets the
//! whole camera-to-framebuffer pipeline be specified and verified:
//! matrix composition, perspective projection, triangle scan conversion
//! with a per-pixel depth test, and texture sampling.

pub mod fixed;
pub mod vec2;
pub mod vec3;
pub mod mat4;
pub mod trig;
pub mod object;
pub mod camera;
pub mod renderer;
pub mod rigidbody;
pub mod world;

pub use fixed::FP;
pub use vec2::Vec2;
pub use vec3::Vec3;
pub use mat4::Mat4;
pub use object::{Face, ModelLoadError, Object, Texture};
pub use camera::Camera;
pub use renderer::Renderer;
pub use rigidbody::Rigidbody;
pub use world::World;
