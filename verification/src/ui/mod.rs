//! What is drawn: themes, widths, and a list of things to paint for each frame.
pub mod style;
pub mod theme;
pub mod width;
pub mod rows;
pub mod panels;
pub mod feed;
pub mod overlays;
pub mod screen;
pub mod reading;
