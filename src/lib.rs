//! Kinematic character movement on exact fixed-point geometry.
//!
//! Lengths are integers in a caller-chosen unit (a millimetre works well),
//! times are integer microseconds, and surface normals are integer direction
//! vectors whose length does not matter. Every rounding step truncates toward
//! zero, so a projection never makes a vector longer.
//!
//! - [`vector`]: integer vectors, their mathematical meaning, and the
//!   projections everything else is built from.
//! - [`ground`]: whether a surface is walkable, and the ground or floor found
//!   below a character.
//! - [`projection`]: motion laid onto a floor or a wall.
//! - [`planes`]: the contact planes of one resolve, classified as a plane, a
//!   crease or a corner, and how each constrains the velocity.
//! - [`sweep`]: what to ask of a shape-cast, and how far it is safe to move.
//! - [`slide`]: the move-and-slide loop, as a state machine that the host
//!   drives with sweeps and decisions.
//! - [`step`]: climbing short ledges with a forward and a downward probe.
//! - [`character`]: the state a character carries between ticks, and the
//!   movement rules that change its velocity.
use vstd::prelude::*;

pub mod character;
pub mod ground;
pub mod planes;
pub mod projection;
pub mod slide;
pub mod step;
pub mod sweep;
pub mod vector;

verus! {

} // verus!
