pub mod common_boundary;
pub mod intersection;
pub mod vertex;
