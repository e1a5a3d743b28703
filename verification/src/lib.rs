pub mod address;
pub mod keys;
pub mod laws;
pub mod result;
pub mod session;
pub mod store;
pub mod txn;
pub mod watch;
pub mod wire;
