pub mod bindings;
pub mod commands;
pub mod config;
pub mod keyed;
pub mod net;
pub mod server;
pub mod text;
pub mod tray;
pub mod laws;
