pub mod action;
pub mod action_history;
pub mod board_abstraction;
pub mod card_abstraction;
pub mod card_round_abstraction;
pub mod deal_validity;
pub mod game_abstraction;
