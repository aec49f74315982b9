pub mod action_history;
pub mod game_state;
pub mod main_train;
pub mod strategy;
