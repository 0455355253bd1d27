//! The views of the terminal user interface.

pub mod browser;
pub mod cover;
pub mod dropdown;
pub mod event;
pub mod info;
pub mod listview;
pub mod lyrics;
pub mod paint;
pub mod panes;
pub mod scroll;
pub mod slots;
pub mod statusbar;
pub mod thumbnail;
pub mod tracklist;
pub mod width;
pub mod wrap;
