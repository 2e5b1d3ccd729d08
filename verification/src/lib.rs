//! Game logic of a small software-rendered 3D world: the input state that
//! drives players and agents, the bookkeeping of a learning agent, a named
//! collection of game objects, a reader for the Wavefront OBJ mesh format and
//! integer pixel drawing on an `image` frame buffer.

pub mod faces;
pub mod framebuf;
pub mod inputs;
pub mod text;
pub mod obj;
pub mod collection;
pub mod training;
