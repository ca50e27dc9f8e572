//! The generators behind the tools of the application.
pub mod chance;
pub mod command_set;
pub mod description;
pub mod procedural;
