pub mod worker;
pub mod separator;
pub mod solution_pool;
