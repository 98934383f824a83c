pub mod config;
pub mod json;
pub mod keyed;
pub mod manager;
pub mod progress;
pub mod registry;
pub mod route;
pub mod sanitize;
pub mod text;
