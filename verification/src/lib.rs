//! Flocking on an integer grid.
//!
//! A flock is a population of boids, each a position and a velocity in the
//! plane. One step moves every boid by three local rules (separation,
//! alignment, cohesion), a soft push away from the border of the window, and
//! a cap on its speed. All coordinates are whole numbers of grid steps, so a
//! run is reproduced exactly from its first population and its windows. At
//! the default parameters a step is a millionth of a unit of length.
//!
//! Where a rule has to round, separation rounds away from zero, so that no
//! push between close boids is lost however small, and alignment, cohesion
//! and the speed cap round toward zero, so that none of them overshoots.
pub mod vector;
pub mod speed;
pub mod world;
pub mod boid;
pub mod rules;
pub mod flock;
pub mod laws;

pub use boid::{Boid, BoidView};
pub use flock::Flock;
pub use vector::{Vec2, Vector};
pub use world::{Params, Rect};
