//! Locating relocatable MIPS object code inside a linked binary image.
//!
//! An object's `.text` section is turned into a *stencil*: the bits of every
//! instruction word that linking cannot change. The image is scanned for the
//! places where a stencil fits, and at every such place the relocations are
//! inverted against the linked instructions to recover symbol addresses.

pub mod config;
pub mod disambiguate;
pub mod elf;
pub mod image;
pub mod ipl3;
pub mod matcher;
pub mod objfile;
pub mod order;
pub mod report;
pub mod search;
pub mod splat;
pub mod stencil;
pub mod symbols;
pub mod words;
