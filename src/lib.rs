//! A "strictly pretty" layout engine: documents built from a small algebra
//! are laid out against a target line width and rendered to a string.
pub mod doc;
pub mod laws;
pub mod layout;
pub mod render;
