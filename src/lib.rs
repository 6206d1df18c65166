//! Inspection of Android application packages and bundles: manifest metadata,
//! attribute normalisation, launcher-icon search and bundle unwrapping; also the
//! size text, password and UUID generation that the desktop side shows.

pub mod text;
pub mod size;
pub mod normalize;
pub mod icon;
pub mod archive;
pub mod manifest;
pub mod bundle;
pub mod package;
pub mod generate;
pub mod tree;
pub mod axml;
