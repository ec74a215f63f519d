pub mod boundary;
pub mod collision;
pub mod placement;
pub mod polygon;
pub mod polyline_set;
pub mod segment;
