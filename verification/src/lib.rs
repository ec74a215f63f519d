pub mod iterators;
pub mod polygon_matcher;
pub mod result_output;
pub mod shapes;
pub mod traits;
pub mod util;
