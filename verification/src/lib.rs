//! Core engine for the playmission mission-archive format: tag
//! normalization between the format's illegal pseudo-XML dialect and
//! standard XML, a typed property model, a virtual archive over zip
//! containers, the staged object construction pipeline, and an
//! event-sourced edit controller with bounded undo/redo.
pub mod assoc;
pub mod datafile;
pub mod descriptor;
pub mod error;
pub mod filemap;
pub mod mission;
pub mod properties;
pub mod structs;
pub mod tea;
pub mod text;
pub mod value;
pub mod xmlcleaner;
pub mod xmltok;
