//! Core of a grid-based atom puzzle: atoms move on an integer grid in
//! fixed-point arithmetic, collide at grid intersections, and transmute
//! according to a reaction rule table; a level is won when its goal
//! condition is met.  Rendering, audio, input and asset decoding are left
//! to the caller, which drives the simulation tick by tick.

pub mod atom;
pub mod collision;
pub mod grid;
pub mod level;
pub mod movement;
pub mod placement;
pub mod sim;
pub mod state;
pub mod win_condition;
