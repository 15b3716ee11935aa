pub mod model;
pub mod store;
pub mod session;
pub mod clock;
pub mod blocks;
pub mod storage;
pub mod annotation;
pub mod workspace;
pub mod laws;
