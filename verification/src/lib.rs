//! Verified core of a small terminal reel game and of the launch that finds
//! it: manifest reading, content paths, the reel session and its scoring.
pub mod text;
pub mod manifest;
pub mod paths;
pub mod launch;
pub mod reel;
pub mod game;
