pub mod interval;
pub use interval::Interval;

pub mod tile_iterator;
pub use tile_iterator::{Tile, TileIterator};

pub mod array2d;
pub use array2d::Array2D;

pub mod morton;

pub mod binary_tree;

pub mod polyhedra;

pub mod axis_aligned_bounding_box;
pub use axis_aligned_bounding_box::BoundingBox;
