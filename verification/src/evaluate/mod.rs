pub mod evaluate_hand;
pub mod generate_tables;
pub mod score_bands;
