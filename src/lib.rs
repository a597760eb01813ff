//! A parser for the vertex, texture-coordinate, material and face lines of a
//! Wavefront OBJ model, producing a vertex list and a triangle index list.

pub mod laws;
pub mod obj;
pub mod text;
