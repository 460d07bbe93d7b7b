//! The workbench's decisions, apart from the window that shows them.

pub mod text;
pub mod activity;
pub mod calls;
pub mod command;
pub mod menus;
pub mod palette;
pub mod editor;
pub mod git;
pub mod lsp;
pub mod devices;
pub mod assistant;
pub mod debug;
pub mod dock;
pub mod lab;
pub mod save;
pub mod places;
pub mod crates;
pub mod math;
