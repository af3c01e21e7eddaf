//! Robots that race each other to collect the score scattered over a
//! rectangular world map.
//!
//! The map, the positions on it and the robots' moves are plain sequential
//! values: every operation that changes the map takes it by exclusive
//! reference, so a harvest is one indivisible step by construction. A program
//! that runs several robots at once shares the map behind a lock of its own
//! and calls [`robots::Robot::turn`] inside the critical section.

mod chance;
pub mod contest;
pub mod map;
pub mod movement;
pub mod position;
pub mod robots;

pub use map::{InvalidParameter, WorldMap};
pub use position::WorldPosition;
