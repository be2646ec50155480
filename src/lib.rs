pub mod codec;
pub mod entity;
pub mod laws;
pub mod record;
pub mod storage;
pub mod store;
