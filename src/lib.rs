//! Server-side logic of a two-role game on an 11 x 11 hex board: a mouse
//! tries to reach the edge while a trapper walls it in.

pub mod board;
pub mod command;
pub mod registry;
pub mod room;
