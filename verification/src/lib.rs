pub mod encode;
pub mod models;
pub mod probe;
pub mod target;
