pub mod actions;
pub mod cluster;
pub mod logs;
