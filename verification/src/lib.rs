pub mod clock;
pub mod config;
pub mod engine;
pub mod fabric;
pub mod gateway;
pub mod global;
pub mod inputs;
pub mod json;
pub mod output;
pub mod router;
pub mod sim;
pub mod worker;
