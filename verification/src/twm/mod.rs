//! The window manager: panes, workspaces and layouts, in pixels throughout.

pub mod actions;
pub mod anim;
pub mod laws;
pub mod layout;
pub mod motion;
pub mod pads;
pub mod pane;
pub mod rect;
pub mod seen;
pub mod state;
pub mod tiles;
