//! Motion tracking funscript generation: from per-frame tracking boxes to a
//! timestamped action list.
pub mod geometry;
pub mod signal;
pub mod config;
pub mod trajectories;
pub mod aggregate;
pub mod interpolate;
pub mod simplify;
pub mod rate;
pub mod funscript;
pub mod fanout;
pub mod timestamp;
pub mod dimensions;
pub mod worker;
pub mod viewport;
