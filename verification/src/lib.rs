//! Cellular grid simulations over `ndarray` grids: a neighbour-counting
//! life rule on integer cells, and item transfer between chests and
//! hoppers on block cells.

pub mod block;
pub mod grid;
pub mod window;
pub mod life;
pub mod exchange;
pub mod hopper;
pub mod sequential;
