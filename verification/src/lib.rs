//! State, input mapping and row layout for a terminal browser of an agent's
//! file-change timeline.

mod text;
pub mod paths;
pub mod model;
pub mod app;
pub mod input;
pub mod editor;
pub mod render;
pub mod timeline;
pub mod selection;
pub mod cache;
