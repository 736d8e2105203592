//! A per-key file-backed store: each value lives in one file of a directory,
//! named by its key, and a codec turns values into bytes and back.
pub mod codec;
pub mod store;

pub use codec::EncodeDecode;
pub use store::{FileStore, StoreError};
