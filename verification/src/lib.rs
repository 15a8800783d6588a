//! Framing layer of an Ogg-style binary container.
//!
//! The library reads a byte buffer organized into self-delimiting pages,
//! reconstructs each page's structured header, and checks page integrity
//! with a 32-bit checksum computed over the page's own bytes (the checksum
//! field itself being zero during that computation).

pub mod crc32;
pub mod parser;
pub mod types;
