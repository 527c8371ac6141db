//! The integer core of a path tracer: packed pixel buffers and their
//! edge-aware denoiser, the plain-text pixel map they are written as, and the
//! decisions of the renderer that do not depend on a colour or a coordinate:
//! which hit of a ray is the nearest, how a path ends, which pixel an index names.

pub mod blur;
pub mod buffer;
pub mod color;
pub mod denoise;
pub mod filter_bounds;
pub mod image;
pub mod integrator;
pub mod ppm;
pub mod render;
pub mod scene;
