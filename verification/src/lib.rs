pub mod cli;
pub mod config;
pub mod model;
pub mod num;
pub mod parser;
pub mod render;
pub mod text;
