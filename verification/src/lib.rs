pub mod capture;
pub mod cli;
pub mod config;
pub mod diagnose;
pub mod driver;
pub mod element;
pub mod error;
pub mod input;
pub mod laws;
pub mod menu;
pub mod output;
pub mod process;
pub mod query;
pub mod targets;
pub mod text;
