//! Jobs: ordered lists of steps, and the runner that executes them.

pub mod runner;
pub mod schema;
