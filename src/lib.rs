pub mod irc;
pub mod text;
pub mod config;
pub mod connection;
pub mod client;
pub mod message;
pub mod plugin;
