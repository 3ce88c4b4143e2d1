//! Verified core of a tmux session overview: text measurement and ANSI
//! filtering, the persisted state formats, the row model, modal handling and
//! the layout of the overview screen.

pub mod actions;
pub mod model;
pub mod num;
pub mod order;
pub mod overview;
pub mod preview;
pub mod render;
pub mod restore;
pub mod rows;
pub mod saved;
pub mod sort;
pub mod state;
pub mod stats;
pub mod store;
pub mod strs;
pub mod terminal;
pub mod text;
pub mod util;
