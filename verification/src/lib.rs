//! A Bloom filter over string items: a fixed array of bits and a fixed number
//! of hash rounds, answering "possibly present" or "definitely absent".
//!
//! The executable filter lives in [`bloom_filter`], the hashing it relies on
//! in [`hashing`], and the mathematical model that the contracts are stated
//! over, together with the laws proved of it, in [`model`].

pub mod hashing;
pub mod model;
pub mod bloom_filter;

pub use bloom_filter::BloomFilter;
