//! The built-in commands.
pub mod update;
pub mod whereis;
pub mod info;
pub mod nuke;
pub mod custom;
pub mod free;
pub mod docker;
