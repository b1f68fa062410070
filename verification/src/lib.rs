//! Verified solvers for five puzzles.
//!
//! The largest recovers the password of a legacy-encrypted archive entry by
//! exhaustive search: `keyspace`, `shard` and `enumerator` lay the candidates
//! out, `oracle` tries one on the archive, `validator` judges what comes
//! out, and `search` drives the three until a secret is found or the
//! candidates run out.
//!
//! The others are `miner` (a nonce whose block digest shows enough leading
//! zero bits), `unpack` (a fixed record of numbers), `hashing` (four hashes
//! of a password) and `certificate` (a self-signed certificate), with `hex`
//! and `encoding` for the text forms of bytes.

pub mod certificate;
pub mod encoding;
pub mod enumerator;
pub mod hashing;
pub mod hex;
pub mod keyspace;
pub mod miner;
pub mod oracle;
pub mod search;
pub mod shard;
pub mod unpack;
pub mod validator;
