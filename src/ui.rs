//! Text as the terminal shows it.

pub mod printable_chars;
