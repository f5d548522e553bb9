//! Automatic cropping of RGBA images to the bounding box of their content.

pub mod grid;
pub mod crop;
