//! Scripting and event core of a terminal MUD client: the line model, listener
//! registries, trigger and alias matching, the prompt and its mask, tab
//! completion, timers and the version notice, each with its contract.

pub mod event;
pub mod lua;
pub mod model;
pub mod net;
pub mod text;
pub mod ui;
