pub mod card;
pub mod hand;
pub mod deal;
pub mod board;
pub mod bcflags;
pub mod commentary;
pub mod metadata;
pub mod auction;
pub mod play;
