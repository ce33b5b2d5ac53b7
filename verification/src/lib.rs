//! The logic of a terminal browser for dex tasks: the task tree, the view
//! state, the keymap, and the rules for surviving a background refresh.

pub mod actions;
pub mod app;
pub mod cli;
pub mod clipboard;
pub mod config;
pub mod counts;
pub mod dex;
pub mod editor;
pub mod effects;
pub mod events;
pub mod icons;
pub mod input;
pub mod keys;
pub mod log;
pub mod markdown;
pub mod modes;
pub mod order;
pub mod panes;
pub mod pulse;
pub mod refresh;
pub mod registry;
pub mod repos;
pub mod saving;
pub mod sidebar;
pub mod text;
pub mod theme;
pub mod tree;
pub mod worktree;
