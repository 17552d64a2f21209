//! A scanner core for Windows executable images: bounds-checked validation of
//! Portable Executable (PE) headers from untrusted byte buffers, and exact
//! substring search by a Rabin–Karp rolling hash — parsing that can never read
//! past a buffer boundary, and a matcher proved to report exactly the offsets
//! a brute-force scan would, overlaps included.
//!
//! The library works on plain byte buffers; listing directories, reading
//! files, and reporting progress are left to the thin shell around it.

pub mod bytes;
pub mod errors;
pub mod hash;
pub mod keywords;
pub mod matcher;
pub mod patterns;
pub mod pe;
pub mod scan;
