//! Core of a screen-snipping tool: stitching the captures of several displays
//! into one frame, driving the drag-to-select session over that frame, and
//! preparing the cropped selection for publication.

pub mod geometry;
pub mod blit;
pub mod decode;
pub mod frame;
pub mod overlay;
pub mod crop;
pub mod artifact;
pub mod payload;
pub mod publish;
