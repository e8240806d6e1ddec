use vstd::prelude::*;

verus! {

/// Escape sequences that scripts use to colour output.
pub const C_RED: &'static str = "\x1b[31m";
pub const C_GREEN: &'static str = "\x1b[32m";
pub const C_YELLOW: &'static str = "\x1b[33m";
pub const C_BLUE: &'static str = "\x1b[34m";
pub const C_MAGENTA: &'static str = "\x1b[35m";
pub const C_CYAN: &'static str = "\x1b[36m";
pub const C_WHITE: &'static str = "\x1b[37m";
pub const C_RESET: &'static str = "\x1b[0m";

/// The client's name and version, as scripts read them.
pub const PROJECT_NAME: &'static str = "Blightmud";
pub const VERSION: &'static str = "0.1.0";

} // verus!
