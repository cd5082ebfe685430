//! Key-X: a local secret vault whose configuration files carry only `kx_` references.
//!
//! The library holds the vault's logic: the encrypted envelope, the entry and
//! trust operations of the daemon, the reference resolution chain of `keyx run`,
//! and the text that the command line prints.
pub mod audit;
pub mod cli;
pub mod config;
pub mod crypto;
pub mod daemon;
pub mod entries;
pub mod error;
pub mod hex;
pub mod num;
pub mod order;
pub mod refs;
pub mod render;
pub mod text;
pub mod trust;
pub mod vault;
