//! A small command language for steering swarms, and the arena that runs them.
pub mod language;
pub mod text;
pub mod world;
