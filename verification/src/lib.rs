pub mod audit;
pub mod auth;
pub mod config;
pub mod gmail;
pub mod poller;
pub mod proxy;
pub mod scrub;
pub mod text;
