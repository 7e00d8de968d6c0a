pub mod cache;
pub mod config;
pub mod db;
pub mod types;
