//! Parsers that turn collected command output into [`crate::host::Host`]
//! values.

pub mod csv;
pub mod directory_scanner;
pub mod linux;
pub mod nmap;
pub mod windows;
