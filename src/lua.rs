//! The scripting host: listener registries, triggers and aliases, the prompt
//! and the state that scripts see.

pub mod constants;
pub mod lua_script;
pub mod macros;
pub mod prompt;
pub mod prompt_mask;
pub mod registry;
pub mod timer;
pub mod trigger;
