//! Conway's Game of Life on a torus, with the pixel buffer its generations are
//! drawn into.
//!
//! * [`layout`] maps grid coordinates to offsets in a flat row-major buffer and
//!   wraps coordinates around the edges of the torus.
//! * [`framebuffer`] holds a rectangle of packed-RGB pixels.
//! * [`universe`] is the mathematical model of a generation: the set of live
//!   cells, the neighbour count and the birth and survival rule.
//! * [`life`] is the executable simulation, proved against that model.
//! * [`frame`] decides one turn of the loop that runs the simulation.
//! * [`patterns`] states what the rule does to a few well-known shapes.

pub mod frame;
pub mod framebuffer;
pub mod layout;
pub mod life;
pub mod patterns;
pub mod universe;
