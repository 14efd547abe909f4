//! What is drawn.

pub mod atlas;
pub mod chrome;
pub mod frame;
pub mod picture;
pub mod scene;
pub mod stats;
pub mod status;
