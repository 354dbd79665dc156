//! The minewell compiler: `.mwl` source to a Minecraft datapack.

pub mod cost;
pub mod diagnostics;
pub mod driver;
pub mod editor;
pub mod emit;
pub mod hir;
pub mod lines;
pub mod map;
pub mod mir;
pub mod names;
pub mod project;
pub mod schema;
pub mod server;
pub mod symbols;
pub mod syntax;
pub mod testing;
pub mod text;
