pub mod config;
pub mod key;
pub mod math;
pub mod pool;
pub mod user;
