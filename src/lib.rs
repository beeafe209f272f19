//! A freehand painting engine: pointer samples become strokes, strokes are
//! resampled and rendered into drawable primitives, and overlapping colors are
//! mixed in a pigment-like latent space instead of being alpha-blended.
pub mod canvas;
pub mod geometry;
pub mod history;
pub mod pigment;
pub mod recorder;
pub mod render;
pub mod stroke;
