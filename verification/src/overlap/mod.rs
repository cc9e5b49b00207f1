pub mod pair_matrix;
pub mod matrix;
pub mod jump_cooldown;
pub mod item_index;
