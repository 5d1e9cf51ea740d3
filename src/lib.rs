//! Resolution of Scarb build metadata for the forge test runner: which
//! compilation unit to build for a package, which libraries it links, where
//! the core library lives, and which compiled artifacts belong to which
//! contract.
pub mod artifacts;
pub mod error;
pub mod metadata;
pub mod paths;
pub mod text;
