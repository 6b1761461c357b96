pub mod types;
pub mod watch;
