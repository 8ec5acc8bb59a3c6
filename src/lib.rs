//! Places a screenshot into the transparent screen area of a device frame.
//!
//! The library finds the screen area from a seed point, by flood fill or by
//! four straight scans, derives its bounding rectangle, fits the screenshot to
//! that rectangle by scaling and cropping, and blends it onto the frame
//! restricted to the found area.
pub mod raster;
pub mod blend;
pub mod region;
pub mod bounds;
pub mod rays;
pub mod fit;
pub mod pipeline;
pub mod encode;
pub mod duration_ext;
