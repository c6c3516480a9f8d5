//! Core logic of a terminal idea-capture tool: a multi-line input editor
//! with undo/redo, history search, the Markdown capture-file layout,
//! configuration defaults and text layout helpers.

pub mod ai;
pub mod app;
pub mod capture;
pub mod clock;
pub mod config;
pub mod input;
pub mod text;
pub mod ui;
pub mod events;
pub mod highlight;
