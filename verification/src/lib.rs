//! Verified core of a small library that finds which local process owns a
//! network socket, and what that process's parent is.
//!
//! The operating system is asked for its socket tables, process tables and
//! process files by the unverified shell in `app/`; everything this crate
//! does with what comes back (decoding socket tables, matching addresses and
//! ports, reading `/proc` text, turning the results into answers or errors)
//! is verified here.

pub mod model;
pub mod text;
pub mod linux;
pub mod macos;
pub mod windows;
