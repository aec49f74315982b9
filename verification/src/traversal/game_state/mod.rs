pub mod game_state_helper;
pub mod terminal_state;
