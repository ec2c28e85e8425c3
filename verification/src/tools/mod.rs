pub mod bash;
pub mod end_turn;
pub mod tool;
