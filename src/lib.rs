//! A pager engine for large log files: a line index over a mapped byte buffer,
//! a visibility overlay, visibility-aware search and pagination, and the
//! highlight and layout computations behind a terminal view.

pub mod text;
pub mod log_file;
pub mod log_viewer;
pub mod command_handler;
pub mod properties;
pub mod controller;

