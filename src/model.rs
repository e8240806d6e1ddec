//! Data that flows between the session, the scripting host and the renderer.

pub mod completions;
pub mod connection;
pub mod line;
pub mod prompt_mask;
pub mod regex;
