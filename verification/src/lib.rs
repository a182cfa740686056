//! A small Merkle hash tree library.
//!
//! Builds a binary Merkle tree over an ordered collection of hashable items
//! and commits to the whole collection, order included, in one root digest.

pub mod hashing;
pub mod merklet;
