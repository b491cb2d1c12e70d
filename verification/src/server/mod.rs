pub mod auth;
pub mod files;
pub mod routes;
pub mod state;
pub mod upload;
pub mod firewall;
