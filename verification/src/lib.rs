//! Light L16 `.lri` capture tooling: unpacking of packed 10-bit sensor data,
//! module names and capture summaries, preview sizing and PNG/base64
//! encoding, the per-module contact sheet, the integer bookkeeping behind
//! pose validation (overlap tallies, blending, difference images), the
//! capture-folder survey and the per-file session cache.

pub mod api;
pub mod codec;
pub mod fusion;
pub mod gather;
pub mod grid;
pub mod image;
pub mod raster;
pub mod render;
pub mod state;
pub mod survey;
pub mod text;
pub mod thumbnail;
pub mod types;
pub mod unpack;
pub mod validate;
