//! Deterministic passphrase derivation: a master password and a domain name
//! are stretched through a slow, salted, iterated SHA-512 construction, and
//! the resulting digest seeds a deterministic generator that picks words from
//! a word list and joins them in a configurable style.

pub mod config;
pub mod hashing;
pub mod rng;
pub mod style;
pub mod wordlist;

pub use config::word_count_for_bits;
pub use config::Config;
pub use hashing::secure_hash;
pub use style::Style;
pub use wordlist::WordList;
