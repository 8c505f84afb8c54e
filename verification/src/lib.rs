//! Usados: the decisions behind "Marcar como usado", the Windows context-menu
//! tool that moves files and folders into a folder of used items.
//!
//! Everything here works on plain values (path text, UTF-16 units, bytes,
//! registry writes described as data). Reading and writing the registry, the
//! file system and the Windows dialogs is done by the program around it.

pub mod texto;
pub mod ui;
pub mod comando;
pub mod config;
pub mod fila;
pub mod mover;
pub mod ordem;
pub mod registro;
pub mod util;
