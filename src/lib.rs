pub mod card;
pub mod player;
pub mod packets;
pub mod game;
