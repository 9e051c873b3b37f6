//! The simulation core of a wave-based tower-defence game.
//!
//! Enemies enter the field in waves and walk a fixed route. Towers that the
//! player builds shoot at the enemies in their range. A bullet that hits an
//! enemy takes hit points off it; an enemy without hit points is dead, and
//! the kill is rewarded. An enemy that reaches the end of the route costs the
//! player a life.
//!
//! The simulation is exact: it counts in fixed-point numbers and in whole
//! milliseconds (see [`fixed`]), so that every rule of the game is a statement
//! about integers. Drawing, sound and input are not its business; it hands
//! out positions and feedback, and takes the time that has passed and the
//! places where the player wants towers.
//!
//! - [`fixed`] and [`geometry`]: the arithmetic, points and directions.
//! - [`path`]: the route, and the point at a distance along it.
//! - [`components`]: enemies, towers and bullets, and the entities that
//!   carry them.
//! - [`resources`]: the economy and the wave clock.
//! - [`sound`]: the feedback of a frame.
//! - [`systems`]: the passes of a frame, one function each.
//! - [`world`]: the field as a whole and the frame that runs the passes in
//!   their order.

pub mod components;
pub mod fixed;
pub mod geometry;
pub mod path;
pub mod resources;
pub mod sound;
pub mod systems;
pub mod world;
