//! Kineto: cinematic composition of screen recordings.
//!
//! The library holds the integer and decision logic of the compositor: parsing
//! colours, laying the recording out on its canvas, rasterising the pre-baked
//! assets, compositing and blurring frames, converting them to YUV, and choosing
//! what the camera, the cursor and the pipeline do next.

pub mod assets;
pub mod blend;
pub mod color;
pub mod compose;
pub mod corners;
pub mod cursor;
pub mod export;
pub mod motion_blur;
pub mod pipeline;
pub mod raster;
pub mod scalar;
pub mod sprite;
pub mod text;
pub mod yuv;
pub mod zoom;
