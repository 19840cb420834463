//! Configuration files.
//!
//! A configuration is read from `inquest.toml` or `.inquest.toml`, or from the older INI file
//! `.testr.conf`. A TOML file may declare profiles under `[profiles.<name>]`: the fields that a
//! selected profile sets take the place of the fields at the top level.

pub mod file;
pub mod layer;
pub mod resolved;
pub mod shape;
pub mod timeout;
