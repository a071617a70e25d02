pub mod args;
pub mod config;
pub mod json;
pub mod order;
pub mod parser;
pub mod processor;
pub mod setup;
pub mod text;
pub mod ui;
pub mod utils;
