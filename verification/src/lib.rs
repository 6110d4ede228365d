//! A library for a mod manager of Clausewitz-style strategy games.
//!
//! The library parses descriptor files written in the games' `key=value`
//! configuration dialect into a generic value tree, extracts normalized
//! mod metadata from such a tree, content-addresses a mod's files, and
//! builds a dependency graph of modules over a shared, concurrently
//! accessible registry.

pub mod value;
pub mod strutil;
pub mod descriptor;
pub mod parser;
pub mod meta;
pub mod component;
pub mod manager;
pub mod laws;
pub mod render;
