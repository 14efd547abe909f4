//! The verified core of a tiling Wayland compositor: its configuration
//! language, its window tree and layouts, its animations, its bar, and the
//! decisions behind its protocol handlers.

use vstd::prelude::*;

pub mod backend;
pub mod chrome;
pub mod config;
pub mod cursor;
pub mod desk;
pub mod handling;
pub mod input;
pub mod integer;
pub mod json;
pub mod literals;
pub mod number;
pub mod opening;
pub mod portal;
pub mod render;
pub mod screens;
pub mod shell;
pub mod single;
pub mod text;
pub mod twm;
pub mod writing;

verus! {

} // verus!
