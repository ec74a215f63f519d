pub mod paths;
pub mod svg;
