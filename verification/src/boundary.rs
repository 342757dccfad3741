//! Boundary-pixel detection on a coverage bitmap.
//!
//! A bitmap is a `width * height` grid of coverage bytes in row-major order
//! (`0` means empty, anything greater means covered).  A covered pixel is a
//! boundary pixel when, among its up-to-8 neighbors (out-of-bounds neighbors
//! count as uncovered), at least 1 and at most 7 are uncovered: neither fully
//! interior nor a fully isolated speck.

use vstd::prelude::*;

verus! {

/// True when (x, y) lies inside a `width * height` grid and the coverage byte
/// there is nonzero.
pub open spec fn covered(width: int, height: int, bytes: Seq<u8>, x: int, y: int) -> bool {
    &&& 0 <= x < width
    &&& 0 <= y < height
    &&& bytes[y * width + x] > 0
}

/// Offset of the j-th neighbor of a pixel: left, right, top, bottom, then the
/// four diagonals.
pub open spec fn neighbor_offset(j: int) -> (int, int) {
    if j == 0 {
        (-1, 0)
    } else if j == 1 {
        (1, 0)
    } else if j == 2 {
        (0, -1)
    } else if j == 3 {
        (0, 1)
    } else if j == 4 {
        (-1, -1)
    } else if j == 5 {
        (1, -1)
    } else if j == 6 {
        (-1, 1)
    } else {
        (1, 1)
    }
}

/// The j-th neighbor of (x, y), or `None` when it falls outside the grid or is
/// a diagonal neighbor while `corners` is false.
pub open spec fn spec_neighbor(
    x: int,
    y: int,
    width: int,
    height: int,
    corners: bool,
    j: int,
) -> Option<(usize, usize)> {
    let dx = neighbor_offset(j).0;
    let dy = neighbor_offset(j).1;
    if (j < 4 || corners) && 0 <= x + dx < width && 0 <= y + dy < height {
        Some(((x + dx) as usize, (y + dy) as usize))
    } else {
        None
    }
}

/// How many of the first `j` neighbor slots of (x, y) are uncovered, with
/// out-of-bounds neighbors counting as uncovered.
pub open spec fn uncovered_in_prefix(
    width: int,
    height: int,
    bytes: Seq<u8>,
    x: int,
    y: int,
    j: int,
) -> int
    decreases j,
{
    if j <= 0 {
        0
    } else {
        uncovered_in_prefix(width, height, bytes, x, y, j - 1) + if covered(
            width,
            height,
            bytes,
            x + neighbor_offset(j - 1).0,
            y + neighbor_offset(j - 1).1,
        ) {
            0int
        } else {
            1int
        }
    }
}

/// How many of the 8 neighbors of (x, y) are uncovered.
pub open spec fn uncovered_neighbors(
    width: int,
    height: int,
    bytes: Seq<u8>,
    x: int,
    y: int,
) -> int {
    uncovered_in_prefix(width, height, bytes, x, y, 8)
}

/// The boundary classification: covered, and neither fully interior (0
/// uncovered neighbors) nor fully isolated (all 8 uncovered).
pub open spec fn is_boundary(width: int, height: int, bytes: Seq<u8>, x: int, y: int) -> bool {
    &&& covered(width, height, bytes, x, y)
    &&& 1 <= uncovered_neighbors(width, height, bytes, x, y) <= 7
}

/// The set of boundary pixels of a bitmap.
pub open spec fn boundary_set_of(width: int, height: int, bytes: Seq<u8>) -> Set<(int, int)> {
    Set::new(|p: (int, int)| is_boundary(width, height, bytes, p.0, p.1))
}

/// The boundary classification of a bitmap as a row-major grid of flags: one
/// cell per pixel, true exactly on the boundary pixels.
pub open spec fn boundary_cells_of(width: int, height: int, bytes: Seq<u8>) -> Seq<bool> {
    Seq::new((width * height) as nat, |i: int| is_boundary(width, height, bytes, i % width, i / width))
}

/// The 8 neighbor slots of the in-bounds pixel `p`, in a fixed order: left,
/// right, top, bottom, then the four diagonals.  A slot is `None` when the
/// neighbor falls outside the grid, or for every diagonal slot when `corners`
/// is false.
pub fn neighbors(p: (usize, usize), width: usize, height: usize, corners: bool) -> (ns: Vec<
    Option<(usize, usize)>,
>)
    requires
        p.0 < width,
        p.1 < height,
    ensures
        ns@.len() == 8,
        forall|j: int|
            0 <= j < 8 ==> ns@[j] == spec_neighbor(
                p.0 as int,
                p.1 as int,
                width as int,
                height as int,
                corners,
                j,
            ),
{
    let (x, y) = p;
    let mut ns: Vec<Option<(usize, usize)>> = Vec::new();
    ns.push(if x > 0 {
        Some((x - 1, y))
    } else {
        None
    });
    ns.push(if x + 1 < width {
        Some((x + 1, y))
    } else {
        None
    });
    ns.push(if y > 0 {
        Some((x, y - 1))
    } else {
        None
    });
    ns.push(if y + 1 < height {
        Some((x, y + 1))
    } else {
        None
    });
    ns.push(if corners && x > 0 && y > 0 {
        Some((x - 1, y - 1))
    } else {
        None
    });
    ns.push(if corners && x + 1 < width && y > 0 {
        Some((x + 1, y - 1))
    } else {
        None
    });
    ns.push(if corners && x > 0 && y + 1 < height {
        Some((x - 1, y + 1))
    } else {
        None
    });
    ns.push(if corners && x + 1 < width && y + 1 < height {
        Some((x + 1, y + 1))
    } else {
        None
    });
    ns
}

/// Row-major grid indices stay inside the grid.
pub proof fn lemma_grid_index(x: int, y: int, w: int, h: int)
    requires
        0 <= x < w,
        0 <= y < h,
    ensures
        0 <= y * w + x < w * h,
{
    assert(y * w + x < w * h) by (nonlinear_arith)
        requires
            0 <= x < w,
            0 <= y < h,
    ;
}

/// Row-major indexing is injective on in-bounds coordinates.
pub proof fn lemma_grid_index_injective(x1: int, y1: int, x2: int, y2: int, w: int)
    requires
        0 <= x1 < w,
        0 <= x2 < w,
        0 <= y1,
        0 <= y2,
        y1 * w + x1 == y2 * w + x2,
    ensures
        x1 == x2,
        y1 == y2,
{
    assert(x1 == x2 && y1 == y2) by (nonlinear_arith)
        requires
            0 <= x1 < w,
            0 <= x2 < w,
            0 <= y1,
            0 <= y2,
            y1 * w + x1 == y2 * w + x2,
    ;
}

/// Decompose a row-major index into its in-bounds coordinates.
pub proof fn lemma_index_coords(i: int, w: int, h: int)
    requires
        w > 0,
        0 <= i < w * h,
    ensures
        0 <= i % w < w,
        0 <= i / w < h,
        (i / w) * w + (i % w) == i,
{
    vstd::arithmetic::div_mod::lemma_fundamental_div_mod(i, w);
    vstd::arithmetic::div_mod::lemma_mod_bound(i, w);
    let q = i / w;
    if q < 0 {
        assert(w * q <= w * -1) by (nonlinear_arith)
            requires
                w > 0,
                q <= -1,
        ;
        assert(false);
    }
    if q >= h {
        assert(w * q >= w * h) by (nonlinear_arith)
            requires
                w > 0,
                q >= h,
        ;
        assert(false);
    }
    assert(q * w == w * q) by (nonlinear_arith);
}

/// How many entries of `s` are true.
pub open spec fn count_true(s: Seq<bool>) -> nat
    decreases s.len(),
{
    if s.len() == 0 {
        0nat
    } else {
        count_true(s.drop_last()) + if s.last() {
            1nat
        } else {
            0nat
        }
    }
}

/// Clearing a set entry lowers the count of true entries by one.
pub proof fn lemma_count_true_clear(s: Seq<bool>, i: int)
    requires
        0 <= i < s.len(),
        s[i],
    ensures
        count_true(s.update(i, false)) == count_true(s) - 1,
    decreases s.len(),
{
    if i == s.len() - 1 {
        assert(s.update(i, false).drop_last() =~= s.drop_last());
    } else {
        assert(s.update(i, false).drop_last() =~= s.drop_last().update(i, false));
        lemma_count_true_clear(s.drop_last(), i);
    }
}

/// The set of boundary pixels still waiting to be assigned to a contour.
///
/// The grid cell for (x, y) is `cells[y * width + x]`; a pixel is in the set
/// while its cell is true.  Contour tracing consumes the set destructively.
pub struct BoundarySet {
    /// Width of the underlying bitmap in pixels.
    pub width: usize,
    /// Height of the underlying bitmap in pixels.
    pub height: usize,
    /// One membership flag per grid cell, row-major.
    pub cells: Vec<bool>,
}

impl View for BoundarySet {
    type V = Set<(int, int)>;

    open spec fn view(&self) -> Set<(int, int)> {
        Set::new(
            |p: (int, int)|
                {
                    &&& 0 <= p.0 < self.width
                    &&& 0 <= p.1 < self.height
                    &&& self.cells@[p.1 * self.width + p.0]
                },
        )
    }
}

impl BoundarySet {
    /// The backing grid has exactly one cell per pixel.
    pub open spec fn wf(&self) -> bool {
        self.cells@.len() == self.width * self.height
    }

    /// Whether (x, y) is still in the set.
    pub fn contains(&self, x: usize, y: usize) -> (r: bool)
        requires
            self.wf(),
        ensures
            r == self@.contains((x as int, y as int)),
    {
        if x < self.width && y < self.height {
            let _n = self.cells.len();
            proof {
                lemma_grid_index(x as int, y as int, self.width as int, self.height as int);
            }
            self.cells[y * self.width + x]
        } else {
            false
        }
    }

    /// Take (x, y) out of the set.
    pub fn remove(&mut self, x: usize, y: usize)
        requires
            old(self).wf(),
            x < old(self).width,
            y < old(self).height,
        ensures
            final(self).wf(),
            final(self).width == old(self).width,
            final(self).height == old(self).height,
            final(self)@ == old(self)@.remove((x as int, y as int)),
            final(self).cells@ == old(self).cells@.update(
                (y * old(self).width + x) as int,
                false,
            ),
            old(self)@.contains((x as int, y as int)) ==> count_true(final(self).cells@)
                == count_true(old(self).cells@) - 1,
            !old(self)@.contains((x as int, y as int)) ==> final(self).cells@
                == old(self).cells@,
    {
        let _n = self.cells.len();
        proof {
            lemma_grid_index(x as int, y as int, self.width as int, self.height as int);
        }
        let ghost oldself = *self;
        let i = y * self.width + x;
        let was = self.cells[i];
        self.cells.set(i, false);
        proof {
            let w = oldself.width as int;
            let h = oldself.height as int;
            assert forall|p: (int, int)|
                self@.contains(p) == oldself@.remove((x as int, y as int)).contains(p) by {
                if 0 <= p.0 < w && 0 <= p.1 < h {
                    lemma_grid_index(p.0, p.1, w, h);
                    if p.1 * w + p.0 == y * w + x {
                        lemma_grid_index_injective(p.0, p.1, x as int, y as int, w);
                    }
                }
            }
            assert(self@ =~= oldself@.remove((x as int, y as int)));
            if oldself@.contains((x as int, y as int)) {
                lemma_count_true_clear(oldself.cells@, i as int);
            } else {
                assert(self.cells@ =~= oldself.cells@);
            }
        }
    }
}

/// Scan a coverage bitmap and classify every pixel, producing the set of
/// boundary pixels.
pub fn detect_boundary(width: usize, height: usize, bytes: &Vec<u8>) -> (b: BoundarySet)
    requires
        bytes@.len() == width * height,
    ensures
        b.wf(),
        b.width == width,
        b.height == height,
        b@ == boundary_set_of(width as int, height as int, bytes@),
        b.cells@ == boundary_cells_of(width as int, height as int, bytes@),
{
    let total = bytes.len();
    let mut cells: Vec<bool> = Vec::new();
    let mut k: usize = 0;
    while k < total
        invariant
            cells@.len() == k,
            k <= total,
        decreases total - k,
    {
        cells.push(false);
        k += 1;
    }
    let ghost w = width as int;
    let ghost h = height as int;
    for y in 0..height
        invariant
            w == width as int,
            h == height as int,
            cells@.len() == total,
            bytes@.len() == total,
            total == width * height,
            forall|xx: int, yy: int|
                0 <= xx < width && 0 <= yy < y ==> cells@[yy * width + xx] == is_boundary(
                    w,
                    h,
                    bytes@,
                    xx,
                    yy,
                ),
    {
        for x in 0..width
            invariant
                w == width as int,
                h == height as int,
                cells@.len() == total,
                bytes@.len() == total,
                total == width * height,
                y < height,
                forall|xx: int, yy: int|
                    0 <= xx < width && 0 <= yy < y ==> cells@[yy * width + xx] == is_boundary(
                        w,
                        h,
                        bytes@,
                        xx,
                        yy,
                    ),
                forall|xx: int|
                    0 <= xx < x ==> cells@[y * width + xx] == is_boundary(w, h, bytes@, xx, y as int),
        {
            proof {
                lemma_grid_index(x as int, y as int, w, h);
            }
            let i = y * width + x;
            let is_b = if bytes[i] > 0 {
                let ns = neighbors((x, y), width, height, true);
                let mut cnt: usize = 0;
                for j in 0..8usize
                    invariant
                        w == width as int,
                        h == height as int,
                        ns@.len() == 8,
                        forall|q: int|
                            0 <= q < 8 ==> ns@[q] == spec_neighbor(x as int, y as int, w, h, true, q),
                        bytes@.len() == total,
                        total == width * height,
                        x < width,
                        y < height,
                        cnt <= j,
                        cnt == uncovered_in_prefix(w, h, bytes@, x as int, y as int, j as int),
                {
                    let ghost dx = neighbor_offset(j as int).0;
                    let ghost dy = neighbor_offset(j as int).1;
                    match ns[j] {
                        Some(q) => {
                            proof {
                                lemma_grid_index(q.0 as int, q.1 as int, w, h);
                            }
                            if bytes[q.1 * width + q.0] == 0 {
                                cnt += 1;
                            }
                            proof {
                                assert(q.0 == x + dx && q.1 == y + dy);
                                assert(covered(w, h, bytes@, x as int + dx, y as int + dy)
                                    == (bytes@[(y as int + dy) * w + (x as int + dx)] > 0));
                            }
                        },
                        None => {
                            cnt += 1;
                            proof {
                                assert(!covered(w, h, bytes@, x as int + dx, y as int + dy));
                            }
                        },
                    }
                }
                1 <= cnt && cnt <= 7
            } else {
                false
            };
            proof {
                assert(is_b == is_boundary(w, h, bytes@, x as int, y as int));
            }
            let ghost oldcells = cells@;
            cells.set(i, is_b);
            proof {
                assert forall|xx: int, yy: int|
                    0 <= xx < width && 0 <= yy < height && (yy < y || (yy == y && xx <= x))
                        implies cells@[yy * width + xx] == #[trigger] is_boundary(
                        w,
                        h,
                        bytes@,
                        xx,
                        yy,
                    ) by {
                    lemma_grid_index(xx, yy, w, h);
                    if yy * width + xx == y * width + x {
                        lemma_grid_index_injective(xx, yy, x as int, y as int, w);
                    }
                }
            }
        }
    }
    let b = BoundarySet { width, height, cells };
    proof {
        assert forall|x: int, y: int|
            b@.contains((x, y)) == is_boundary(w, h, bytes@, x, y) by {
            if 0 <= x < width && 0 <= y < height {
                lemma_grid_index(x, y, w, h);
            }
        }
        assert(b@ =~= boundary_set_of(w, h, bytes@));
        assert forall|i: int| 0 <= i < b.cells@.len() implies b.cells@[i] == is_boundary(
            w,
            h,
            bytes@,
            i % w,
            i / w,
        ) by {
            assert(w > 0 && h > 0) by (nonlinear_arith)
                requires
                    w >= 0,
                    h >= 0,
                    w * h > 0,
            ;
            lemma_index_coords(i, w, h);
            assert(b.cells@[(i / w) * w + (i % w)] == is_boundary(w, h, bytes@, i % w, i / w));
        }
        assert(b.cells@ =~= boundary_cells_of(w, h, bytes@));
    }
    b
}

} // verus!
