pub mod patroni;
