pub mod client;
pub mod config;
pub mod entities;
pub mod json;
pub mod pipeline;
pub mod sink;
pub mod text;
