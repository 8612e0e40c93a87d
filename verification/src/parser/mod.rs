pub mod escapes;
pub mod commentary;
pub mod header;
pub mod auction;
pub mod pbn;
