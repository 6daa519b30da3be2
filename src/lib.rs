pub mod bridge;
pub mod config;
pub mod laws;
pub mod protocol;
pub mod rank;
pub mod redacted;
pub mod registry;
pub mod server;
pub mod store;
pub mod world;
