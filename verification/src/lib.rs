//! A Wayland status bar and its keyboard watcher: the verified logic.

pub mod bar;
pub mod cli;
pub mod constants;
pub mod input_backend;
pub mod process;
pub mod renderer;
pub mod scan;
pub mod status;
pub mod text;
pub mod workspaces;
