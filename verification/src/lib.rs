pub mod analytics;
pub mod config;
pub mod crypto;
pub mod monitor;
pub mod session;
pub mod terminal;
pub mod text;
pub mod tray;
