//! Keeps named profiles of Minecraft mod files and mirrors a chosen one into
//! the game's mods directory. The decisions are made here, over plain values;
//! the program around the library reads the disk and the terminal.

pub mod paths;
pub mod walk;
pub mod catalog;
pub mod menu;
