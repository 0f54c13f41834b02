//! Sandboxed file backup: backup identifiers, catalog selection, name and path guards.
pub mod lex;
pub mod error;
pub mod paths;
pub mod context;
pub mod digest;
pub mod catalog;
