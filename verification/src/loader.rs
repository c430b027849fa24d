//! What comes out of the files that describe a scene.

pub mod obj;
pub mod statement;
