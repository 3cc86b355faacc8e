//! The parts of a terminal music player that decide what is on the screen.
//!
//! Nothing here touches a terminal, a clock, a file or the network. Every function
//! takes the time, the state of the player and the size of the screen as plain values
//! and answers with what to draw, what to keep and what to do next.

pub mod application;
pub mod audio_tap;
pub mod canvas;
pub mod events;
pub mod model;
pub mod search_cache;
pub mod stamps;
pub mod table;
pub mod text;
pub mod ui;
pub mod waveform;
