pub mod alternate_iterator;
pub mod edge_iterator;
pub mod vertex_iterator;
