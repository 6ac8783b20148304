//! Verified core of the gwae terminal multiplexer: the pure decisions and
//! geometry behind its event loop, with their contracts.

pub mod text;
pub mod shell;
pub mod status;
pub mod escape;
pub mod keys;
pub mod jump;
pub mod hud;
pub mod grid;
pub mod view;
pub mod agent;
pub mod chrome;
pub mod session;
pub mod cell;
pub mod frame;
pub mod render;
pub mod paint;
pub mod dashboard;
pub mod screen;
pub mod panels;
pub mod cheatsheet;
pub mod placeholder;
pub mod pickers;
pub mod compose;
pub mod procs;
pub mod ticks;
pub mod modal;
pub mod activity;
pub mod note;
pub mod hold;
