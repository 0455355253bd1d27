//! The logic of a terminal client for Spotify.

pub mod audio;
pub mod command;
pub mod config;
pub mod friends;
pub mod geometry;
pub mod lyrics;
pub mod model;
pub mod paths;
pub mod sort;
pub mod text;
pub mod text_map;
pub mod ui;
pub mod worker;
