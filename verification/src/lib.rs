//! Verified text tools for moderators of Alter Ego, the text adventure bot: a description
//! formatter, a procedural generator and a command set generator, with the small pieces of
//! logic that the application's settings and views need.
pub mod pattern;
pub mod text;
pub mod theme;
pub mod tools;
pub mod view_style;
