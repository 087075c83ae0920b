pub mod app;
pub mod components;
pub mod config;
pub mod patroni;
pub mod services;
pub mod system;
pub mod text;
