//! Simulation core of the teapot visualisation: the snake on its wrapping
//! grid, the cadence of the background tick, the shared world the two
//! drivers exchange, and the frame counter.

pub mod position;
pub mod frames_per_second;
mod random;
pub mod snake;
pub mod world;
