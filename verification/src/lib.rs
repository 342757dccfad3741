//! Vectorization of rasterized font glyphs.
//!
//! A glyph is rasterized once into a coverage bitmap, its boundary pixels are
//! detected and grouped into closed contours, the contours are tessellated
//! into a triangle mesh, and the mesh is memoized per (character, resolution)
//! key so that the expensive work runs at most once per combination.

pub mod boundary;
pub mod font;
pub mod mesh;
pub mod trace;

pub use boundary::detect_boundary;
pub use boundary::neighbors;
pub use boundary::BoundarySet;
pub use font::glyph_key;
pub use font::Error;
pub use font::Fonts;
pub use font::GlyphCache;
pub use font::GlyphStore;
pub use mesh::vectorize_bitmap;
pub use mesh::GlyphGeometry;
pub use trace::trace_contours;
