//! Colour each line of text with a cycling sequence of pride-flag colours,
//! rendered as ANSI escape sequences.
pub mod colour;
pub mod text;
pub mod palette;
pub mod render;
pub mod plain;
pub mod cycler;
pub mod line;
pub mod config;
