//! What is drawn around and between windows: borders, titles and the bar.

pub mod app;
pub mod bar;
pub mod clock;
pub mod custom;
pub mod de;
pub mod decor;
pub mod draw;
pub mod modules;
pub mod panes;
pub mod rows;
pub mod zones;
