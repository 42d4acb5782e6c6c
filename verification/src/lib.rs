//! Core of a small real-time 3D viewer: a free-look camera controller and a
//! glyph-atlas cache for text overlays.
//!
//! All continuous quantities are held as fixed-point integers so that every
//! state transition has an exact, machine-checked contract: angles are
//! millidegrees, lengths and speeds are thousandths of a unit, trigonometric
//! projections are scaled by `trig::TRIG_ONE`.  The driver that owns the
//! window and the GPU converts these to floating point at the very edge.

pub mod angle;
pub mod camera;
pub mod fixed;
pub mod fps_counter;
pub mod glyph_cache;
pub mod lazy_load;
pub mod matrices;
pub mod mesh;
pub mod platform;
pub mod text;
pub mod trig;
pub mod vec3;
