pub mod card;
pub mod card_order;
pub mod combinations;
pub mod deal;
pub mod deck;
pub mod player;
