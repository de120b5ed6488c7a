//! Per-distribution option records.

pub mod arch4edu;
pub mod archarm;
pub mod archlinuxcn;
pub mod archlinux;
pub mod arcolinux;
pub mod artix;
pub mod blackarch;
pub mod cachyos;
pub mod chaotic;
pub mod debian;
pub mod endeavouros;
pub mod manjaro;
pub mod openbsd;
pub mod rebornos;
pub mod stdin;
pub mod ubuntu;
