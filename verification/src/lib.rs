//! A procedural tile-world engine: infinite terrain generated on demand from
//! a fractal noise field, organized into fixed-size chunks, with tile-level
//! movement semantics (blocking, walking, swimming, crawling) and
//! destructible/lethal tile actions.
//!
//! Continuous quantities (entity positions, velocities, view rectangles) are
//! held in fixed-point milli-tile units, and noise samples are quantized to
//! `NOISE_SCALE` steps of the unit interval, so that every rule of the engine
//! is exact integer arithmetic.

pub mod chunk;
pub mod controlls;
pub mod entity;
pub mod noise_field;
pub mod positions;
pub mod tile;
pub mod world;
