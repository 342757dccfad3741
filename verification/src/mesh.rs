//! Tessellation of traced contours into a triangle mesh, and the full
//! bitmap-to-mesh pipeline.
//!
//! Tessellation itself is done by lyon's fill tessellator (even-odd fill rule
//! over the union of all closed contours, so holes are subtracted naturally);
//! this module states its result under a name and verifies everything around
//! the call.

use vstd::prelude::*;

use crate::boundary::{boundary_cells_of, boundary_set_of, detect_boundary, lemma_grid_index};
use crate::trace::{contours_view, flat_of, spec_trace, trace_contours, valid_trace};

use lyon_tessellation::geometry_builder::simple_builder;
use lyon_tessellation::math::point;
use lyon_tessellation::math::Point;
use lyon_tessellation::path::Path;
use lyon_tessellation::FillOptions;
use lyon_tessellation::FillTessellator;
use lyon_tessellation::VertexBuffers;

verus! {

/// The tessellated mesh of one glyph: vertex positions in pixel space and a
/// triangle list of indices into them.
///
/// A coordinate is stored as the bit pattern of the 32-bit float the
/// tessellator produced, so positions round-trip exactly without a float in
/// the data model; a renderer reconstructs the float from the bits.
#[derive(Clone, Debug, PartialEq, Eq)]
pub struct GlyphGeometry {
    /// Vertex positions as (x, y) pairs of 32-bit float bit patterns.
    pub vertices: Vec<(u32, u32)>,
    /// Triangle list: three indices into `vertices` per triangle.
    pub indices: Vec<u16>,
}

impl GlyphGeometry {
    /// Indices come in whole triangles and point into the vertex list.
    pub open spec fn wf(&self) -> bool {
        &&& self.indices@.len() % 3 == 0
        &&& forall|i: int|
            0 <= i < self.indices@.len() ==> (self.indices@[i] as int) < self.vertices@.len()
    }

    /// Whether the mesh holds no geometry at all.
    pub open spec fn is_empty(&self) -> bool {
        self.vertices@.len() == 0 && self.indices@.len() == 0
    }
}

/// The mesh lyon's fill tessellator produces for the given closed contours.
/// It depends on the contours alone.
pub uninterp spec fn tessellation_of(contours: Seq<Seq<(int, int)>>) -> (
    Seq<(u32, u32)>,
    Seq<u16>,
);

/// Relies on lyon_tessellation's `FillTessellator::tessellate_path`: filling
/// the union of the closed input polygons (even-odd rule, the default) is a
/// deterministic function of the polygons; `simple_builder` records whole
/// triangles whose indices are the positions of vertices already pushed, so
/// they come three at a time and stay below the vertex count; a tessellation
/// error (for instance too many vertices for u16 indices) aborts the output,
/// which this wrapper turns into the empty mesh, and an empty path yields an
/// empty mesh.  `tessellation_of` names the result of exactly this call with
/// this error handling.
#[verifier::external_body]
fn tessellate_polygons(polys: &Vec<Vec<(usize, usize)>>) -> (g: GlyphGeometry)
    requires
        forall|k: int| 0 <= k < polys@.len() ==> polys@[k]@.len() > 0,
    ensures
        g.vertices@ == tessellation_of(contours_view(polys@)).0,
        g.indices@ == tessellation_of(contours_view(polys@)).1,
        polys@.len() == 0 ==> g.is_empty(),
        g.wf(),
{
    let mut builder = Path::builder();
    for poly in polys.iter() {
        builder.begin(point(poly[0].0 as _, poly[0].1 as _));
        for p in &poly[1..] {
            builder.line_to(point(p.0 as _, p.1 as _));
        }
        builder.close();
    }
    let options = FillOptions::default();
    let mut buffers: VertexBuffers<Point, u16> = VertexBuffers::new();
    if FillTessellator::new().tessellate_path(&builder.build(), &options, &mut simple_builder(&mut buffers)).is_err() {
        buffers.clear();
    }
    let vertices = buffers.vertices.iter().map(|p| (p.x.to_bits(), p.y.to_bits())).collect();
    GlyphGeometry { vertices, indices: buffers.indices }
}

/// `g` is the pipeline's mesh for the bitmap (width, height, bytes): the
/// tessellation of the deterministic contour trace of its boundary pixels.
pub open spec fn pipeline_mesh(width: int, height: int, bytes: Seq<u8>, g: GlyphGeometry) -> bool {
    let cs = spec_trace(width, height, boundary_cells_of(width, height, bytes));
    &&& g.vertices@ == tessellation_of(cs).0
    &&& g.indices@ == tessellation_of(cs).1
}

/// `g` is the pipeline's mesh for some coverage bitmap.
pub open spec fn some_pipeline_mesh(g: GlyphGeometry) -> bool {
    exists|width: int, height: int, bytes: Seq<u8>|
        0 <= width && 0 <= height && bytes.len() == width * height && #[trigger] pipeline_mesh(
            width,
            height,
            bytes,
            g,
        )
}

proof fn lemma_flat_of_last_nonempty(cs: Seq<Seq<(int, int)>>)
    requires
        cs.len() > 0,
        cs.last().len() > 0,
    ensures
        flat_of(cs).len() > 0,
{
}

/// An all-zero bitmap has no boundary pixels.
pub proof fn lemma_empty_bitmap(width: int, height: int, bytes: Seq<u8>)
    requires
        forall|i: int| 0 <= i < bytes.len() ==> bytes[i] == 0,
        bytes.len() == width * height,
    ensures
        boundary_set_of(width, height, bytes) == Set::<(int, int)>::empty(),
{
    assert forall|p: (int, int)| !boundary_set_of(width, height, bytes).contains(p) by {
        if 0 <= p.0 < width && 0 <= p.1 < height {
            lemma_grid_index(p.0, p.1, width, height);
        }
    }
    assert(boundary_set_of(width, height, bytes) =~= Set::<(int, int)>::empty());
}

/// Run the full vectorization pipeline on one coverage bitmap: detect the
/// boundary pixels, trace them into contours, and tessellate the contours.
///
/// The mesh is exactly lyon's tessellation of the deterministic contour trace
/// of the bitmap's boundary pixels; the trace partitions those pixels into
/// nonempty 4-connected contours, and a bitmap without boundary pixels (for
/// instance an all-zero one) yields the empty mesh.
pub fn vectorize_bitmap(width: usize, height: usize, bytes: &Vec<u8>) -> (g: GlyphGeometry)
    requires
        bytes@.len() == width * height,
    ensures
        g.wf(),
        pipeline_mesh(width as int, height as int, bytes@, g),
        some_pipeline_mesh(g),
        valid_trace(
            boundary_set_of(width as int, height as int, bytes@),
            spec_trace(
                width as int,
                height as int,
                boundary_cells_of(width as int, height as int, bytes@),
            ),
        ),
        boundary_set_of(width as int, height as int, bytes@) == Set::<(int, int)>::empty()
            ==> g.is_empty(),
{
    let mut bset = detect_boundary(width, height, bytes);
    let polys = trace_contours(&mut bset);
    let ghost cs = contours_view(polys@);
    proof {
        assert(cs == spec_trace(
            width as int,
            height as int,
            boundary_cells_of(width as int, height as int, bytes@),
        ));
        assert forall|k: int| 0 <= k < polys@.len() implies polys@[k]@.len() > 0 by {
            assert(contours_view(polys@)[k].len() > 0);
        }
        assert(valid_trace(boundary_set_of(width as int, height as int, bytes@), cs));
    }
    let g = tessellate_polygons(&polys);
    proof {
        assert(pipeline_mesh(width as int, height as int, bytes@, g));
        if boundary_set_of(width as int, height as int, bytes@) == Set::<(int, int)>::empty() {
            if polys@.len() > 0 {
                lemma_flat_of_last_nonempty(cs);
                assert(flat_of(cs).to_set().contains(flat_of(cs)[0]));
            }
        }
    }
    g
}

} // verus!
