pub mod generate_flush_table;
pub mod remaining_hand_types;
pub mod generate_remaining_table;
pub mod generate_unique_five_table;
