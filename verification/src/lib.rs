//! A split-pane git diff viewer: the verified core.
//!
//! The library turns an old/new text pair into screen rows whose unchanged
//! lines share a row in both panes, computes intra-line change ranges, keeps
//! the viewer's navigation state, and lays out what each frame shows.

pub mod text;
pub mod inline;
pub mod diff;
pub mod style;
pub mod highlight;
pub mod ui;
pub mod git;
pub mod app;
pub mod screen;
pub mod cli;
