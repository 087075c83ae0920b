pub mod cluster;
pub mod logs;
pub mod overview;
