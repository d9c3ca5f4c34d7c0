//! A terminal file browser's core: directory listings, cursor navigation
//! with per-directory cursor memory, per-directory selection sets, and a
//! clipboard whose paste/delete actions are planned as explicit file
//! operations for a thin shell to carry out.

pub mod app_state;
pub mod assoc;
pub mod clipboard;
pub mod command;
pub mod fs_path;
pub mod listing;
pub mod navigation;
