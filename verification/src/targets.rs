//! Per-distribution mirror-list parsing and output formatting.
//!
//! Fetching the lists is network work and happens outside the library;
//! these modules hold the logic that turns fetched text into mirrors and
//! mirrors back into configuration lines.

pub mod arch4edu;
pub mod archarm;
pub mod archlinux;
pub mod archlinuxcn;
pub mod arcolinux;
pub mod artix;
pub mod blackarch;
pub mod cachyos;
pub mod chaotic;
pub mod debian;
pub mod endeavouros;
pub mod manjaro;
pub mod openbsd;
pub mod rebornos;
pub mod stdin;
pub mod ubuntu;
