//! A falling-sand particle simulator: a grid of cells holding particles of a
//! few materials, a per-frame simulation step, and a brush that paints or
//! erases particles along pointer strokes.

pub mod element;
pub mod object;
pub mod grid;
pub mod world;
pub mod step;
pub mod stroke;
