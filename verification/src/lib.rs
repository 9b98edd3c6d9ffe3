//! A small library behind an interactive terraform front-end.
//!
//! It keeps, per git repository, a configuration record (environment,
//! region, module, infrastructure root) and derives from it the state
//! file path, the module variable-file paths and the argument lists
//! that a terraform invocation needs.  Names and paths are handled as
//! byte strings throughout, so every derivation is a plain function on
//! bytes with a proved contract.

pub mod bytestr;
pub mod error;
pub mod config;
pub mod paths;
pub mod scan;
pub mod cli;
pub mod codec;
