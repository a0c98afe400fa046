pub mod client;
pub mod token;
