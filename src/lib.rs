//! Typed storage over a hashed key-value store, and a session manager that
//! keeps its state there and rotates the validators' authority keys.

pub mod codec;
pub mod hashing;
pub mod storage;
pub mod views;
pub mod session;
