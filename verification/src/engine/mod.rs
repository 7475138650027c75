pub mod engine;
pub mod ladder;
pub mod laws;
pub mod lemmas;
pub mod model;
pub mod service;
