//! The logic of a small city viewer.
//!
//! `grid`, `cube`, `layout_model` and `layout` lay the city out: a disc of
//! single-cell blocks on a square grid, spread by random probes that take
//! blocks away or let them grow over a neighbour. `random` holds the draws.
//! `cursor_lock` and `controls` switch the camera's drag modes by the
//! modifier keys and say when the mouse cursor is to be grabbed and released.

pub mod controls;
pub mod cube;
pub mod cursor_lock;
pub mod grid;
pub mod layout;
pub mod layout_model;
pub mod random;
