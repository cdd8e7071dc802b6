//! Composable non-fungible tokens: nesting of tokens under tokens, a
//! per-token asset ledger with a pending/accepted workflow, and a registry
//! of composable base parts.
pub mod base;
pub mod book;
pub mod minting;
pub mod multiasset;
pub mod nesting;
pub mod types;
