pub mod agreement;
pub mod client;
pub mod server;
