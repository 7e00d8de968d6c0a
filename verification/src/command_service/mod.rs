pub mod args;
pub mod communication;
pub mod output;
pub mod report;
pub mod settings;
