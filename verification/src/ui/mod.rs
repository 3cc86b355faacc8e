//! The views, each as what it puts on the screen and what it does with an event.

pub mod accent;
pub mod album_art;
pub mod anim;
pub mod blocks;
pub mod controls;
pub mod input;
pub mod meters;
pub mod now_playing;
pub mod osd;
pub mod painter;
pub mod quick_search;
pub mod spectrum;
pub mod statusbar;
