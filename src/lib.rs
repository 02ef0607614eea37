//! The persistent index of a cross-chain messaging home: committed messages
//! by leaf hash, leaf index and destination/nonce, the latest leaf index, the
//! chain of signed root updates with its latest root, and Merkle proofs.
//!
//! Every entry lives in one byte-keyed store under `home ++ tag ++ key`. The
//! library builds those keys, encodes and decodes the values, and plans the
//! writes of each recording from what was read before it; `store` models the
//! store as a map and `laws` proves what holds across recordings.
pub mod codec;
pub mod keys;
pub mod laws;
pub mod scan;
pub mod store;
pub mod types;
