//! Placeholder artwork: tiny procedurally painted RGBA images and their PNG
//! encoding.

pub mod gen_art;
