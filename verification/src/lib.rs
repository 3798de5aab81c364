//! Verified core of a map editor for rounded, shaded paths.

pub mod text;
pub mod map_format;
pub mod selection;
pub mod editor;
