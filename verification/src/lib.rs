//! Verified core of a terminal music player: the song library with its
//! artist and album indexes, the play queue and the navigation state.

pub mod text;
pub mod library;
pub mod selection;
pub mod app;
pub mod paths;
