//! The studio editor's logic: data model, asset classification, external
//! editor choice, script stubs, image data URLs, console and play state.
//! File access, dialogs, process launch and the UI stay with the caller.

pub mod model;
pub mod assets;
pub mod editor;
pub mod session;
pub mod scene;
pub mod commands;
pub mod tree;
pub mod editing;
pub mod panels;
pub mod settings;
pub mod play;
