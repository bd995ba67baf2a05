//! Merkle-committed airdrop: a canonical leaf codec, a binary hash tree with
//! inclusion proofs, a proof verifier and an at-most-once claim registry.
pub mod address;
pub mod codec;
pub mod export;
pub mod hash;
pub mod merkle;
pub mod token;
