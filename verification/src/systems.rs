//! The passes of a frame, each over the entities it works on.

pub mod combat;
pub mod enemy;
pub mod tower;
pub mod ui;
