//! A pixel-granular 2D world engine.
//!
//! * [`coords`]: the coordinate spaces and the maps between them.
//! * [`terrain`]: particles, chunks and the rules that turn noise into
//!   terrain.
//! * [`world`]: the grid of generated chunks, collision queries and the
//!   viewport compositor.
//! * [`player`]: the agent and its swept movement through the terrain.
//! * [`camera`]: the camera that follows the agent.
//! * [`drawing`]: the screen buffer and the primitives that draw into it.
//! * [`frame`]: the frame, composed of everything that is drawn.
//! * [`sprite`]: sprites and sprite sheets from encoded images.

pub mod camera;
pub mod coords;
pub mod drawing;
pub mod frame;
pub mod player;
pub mod sprite;
pub mod terrain;
pub mod world;
