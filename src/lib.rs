//! Procedural ASCII-art trees: a bounded stochastic grammar produces a
//! sequence of sticks, and a cursor interpreter paints it on a sparse canvas.

pub mod canvas;
pub mod confstats;
pub mod error;
pub mod lottery;
pub mod point;
pub mod shape;
pub mod sticks;
pub mod tree;
pub mod tree_gen;

pub use canvas::Canvas;
pub use confstats::{BranchConfig, BranchStats, Config, Stats, TreeConfig, TreeStats};
pub use error::TreeError;
pub use lottery::Lottery;
pub use point::Point;
pub use sticks::Stick;
pub use tree::{Fvtree, FvtreeString};
