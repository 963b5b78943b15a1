//! Commands offered by the interactive menu and the logic behind each of them.
pub mod command;
pub mod decades;
pub mod duplicates;
pub mod genres;
pub mod grouping;
pub mod paging;
pub mod spotify_api;
pub mod sync;
pub mod tracks_info;
pub mod util;
