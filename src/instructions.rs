pub mod create_pool;
pub mod deposit;
pub mod initialize;
pub mod swap;
pub mod withdraw;
