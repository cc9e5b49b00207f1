pub mod coord_descent;
pub mod search;
