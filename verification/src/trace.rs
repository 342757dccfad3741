//! Contour tracing: grouping boundary pixels into closed polygonal loops.
//!
//! Tracing repeatedly picks the first remaining boundary pixel in row-major
//! scan order, removes it, and extends the contour by walking to the first
//! 4-connected neighbor (left, right, top, bottom priority) still in the set,
//! until no neighbor remains.  Every boundary pixel ends up in exactly one
//! contour; the set is consumed entirely.
//!
//! The greedy walk can truncate or self-intersect on complex shapes; it
//! guarantees only the partition of the pixels, not a best path.  The fixed
//! scan and neighbor order make the output deterministic.

use vstd::prelude::*;

use crate::boundary::{
    count_true, lemma_count_true_clear, lemma_grid_index, lemma_index_coords, neighbor_offset,
    neighbors, spec_neighbor, BoundarySet,
};

verus! {

/// Two pixels share an edge (4-connectivity).
pub open spec fn adjacent4(a: (int, int), b: (int, int)) -> bool {
    ||| (a.0 == b.0 && (a.1 == b.1 + 1 || a.1 + 1 == b.1))
    ||| (a.1 == b.1 && (a.0 == b.0 + 1 || a.0 + 1 == b.0))
}

/// A contour's pixels, as mathematical pairs.
pub open spec fn contour_view(c: Seq<(usize, usize)>) -> Seq<(int, int)> {
    c.map_values(|p: (usize, usize)| (p.0 as int, p.1 as int))
}

/// All contours' pixels, as mathematical pairs.
pub open spec fn contours_view(cs: Seq<Vec<(usize, usize)>>) -> Seq<Seq<(int, int)>> {
    Seq::new(cs.len(), |i: int| contour_view(cs[i]@))
}

/// The concatenation of a sequence of contours, in order.
pub open spec fn flat_of(cs: Seq<Seq<(int, int)>>) -> Seq<(int, int)>
    decreases cs.len(),
{
    if cs.len() == 0 {
        Seq::<(int, int)>::empty()
    } else {
        flat_of(cs.drop_last()) + cs.last()
    }
}

/// Consecutive pixels of the contour are 4-connected.
pub open spec fn is_chain(c: Seq<(int, int)>) -> bool {
    forall|i: int| 0 <= i < c.len() - 1 ==> adjacent4(#[trigger] c[i], c[i + 1])
}

/// `cs` partitions the pixel set `s` into nonempty 4-connected chains: every
/// pixel of `s` appears in exactly one contour.
pub open spec fn valid_trace(s: Set<(int, int)>, cs: Seq<Seq<(int, int)>>) -> bool {
    &&& forall|k: int| 0 <= k < cs.len() ==> cs[k].len() > 0
    &&& forall|k: int| 0 <= k < cs.len() ==> is_chain(cs[k])
    &&& flat_of(cs).no_duplicates()
    &&& flat_of(cs).to_set() == s
}

/// The grid cell of p exists and is set.
pub open spec fn cell_set(w: int, h: int, cells: Seq<bool>, p: (int, int)) -> bool {
    &&& 0 <= p.0 < w
    &&& 0 <= p.1 < h
    &&& cells[p.1 * w + p.0]
}

/// The grid with p's cell cleared.
pub open spec fn clear_cell(w: int, cells: Seq<bool>, p: (int, int)) -> Seq<bool> {
    cells.update(p.1 * w + p.0, false)
}

/// The first 4-connected neighbor of p still in the set, trying the slots
/// from `j` on in the fixed left, right, top, bottom order.
pub open spec fn next_neighbor_from(
    w: int,
    h: int,
    cells: Seq<bool>,
    p: (int, int),
    j: int,
) -> Option<(int, int)>
    decreases 4 - j,
{
    if j < 0 || j >= 4 {
        None
    } else {
        let q = (p.0 + neighbor_offset(j).0, p.1 + neighbor_offset(j).1);
        if cell_set(w, h, cells, q) {
            Some(q)
        } else {
            next_neighbor_from(w, h, cells, p, j + 1)
        }
    }
}

/// The first 4-connected neighbor of p still in the set, if any.
pub open spec fn next_neighbor(w: int, h: int, cells: Seq<bool>, p: (int, int)) -> Option<
    (int, int),
> {
    next_neighbor_from(w, h, cells, p, 0)
}

pub proof fn lemma_next_neighbor_from_set(w: int, h: int, cells: Seq<bool>, p: (int, int), j: int)
    ensures
        match next_neighbor_from(w, h, cells, p, j) {
            Some(q) => cell_set(w, h, cells, q) && adjacent4(p, q),
            None => true,
        },
    decreases 4 - j,
{
    if 0 <= j < 4 {
        let q = (p.0 + neighbor_offset(j).0, p.1 + neighbor_offset(j).1);
        if !cell_set(w, h, cells, q) {
            lemma_next_neighbor_from_set(w, h, cells, p, j + 1);
        }
    }
}

/// The greedy walk extending a contour beyond its last pixel p (itself
/// already removed from the set): the pixels appended after p, in order, and
/// the set that remains when no free neighbor is left.
pub open spec fn walk_from(w: int, h: int, cells: Seq<bool>, p: (int, int)) -> (
    Seq<(int, int)>,
    Seq<bool>,
)
    decreases count_true(cells),
    when w * h == cells.len()
{
    match next_neighbor(w, h, cells, p) {
        None => (Seq::<(int, int)>::empty(), cells),
        Some(q) => {
            proof {
                lemma_next_neighbor_from_set(w, h, cells, p, 0);
                lemma_grid_index(q.0, q.1, w, h);
                lemma_count_true_clear(cells, q.1 * w + q.0);
            }
            let rec = walk_from(w, h, clear_cell(w, cells, q), q);
            (seq![q] + rec.0, rec.1)
        },
    }
}

pub proof fn lemma_walk_preserves_len(w: int, h: int, cells: Seq<bool>, p: (int, int))
    requires
        w * h == cells.len(),
    ensures
        walk_from(w, h, cells, p).1.len() == cells.len(),
    decreases count_true(cells),
{
    match next_neighbor(w, h, cells, p) {
        None => {},
        Some(q) => {
            lemma_next_neighbor_from_set(w, h, cells, p, 0);
            lemma_grid_index(q.0, q.1, w, h);
            lemma_count_true_clear(cells, q.1 * w + q.0);
            lemma_walk_preserves_len(w, h, clear_cell(w, cells, q), q);
        },
    }
}

/// The whole deterministic trace of a boundary grid: the cells are scanned in
/// row-major order from index `i`; each set cell starts a contour, is
/// removed, and is extended by the greedy walk; the scan resumes behind it.
pub open spec fn trace_from(w: int, h: int, cells: Seq<bool>, i: int) -> Seq<Seq<(int, int)>>
    decreases cells.len() - i,
    when w * h == cells.len() && 0 <= i && 0 <= w && 0 <= h
{
    if i >= cells.len() {
        Seq::<Seq<(int, int)>>::empty()
    } else if !cells[i] {
        trace_from(w, h, cells, i + 1)
    } else {
        let p = (i % w, i / w);
        proof {
            assert(w > 0 && h > 0) by (nonlinear_arith)
                requires
                    0 <= w,
                    0 <= h,
                    w * h > 0,
            ;
            lemma_index_coords(i, w, h);
            lemma_walk_preserves_len(w, h, clear_cell(w, cells, p), p);
        }
        let walked = walk_from(w, h, clear_cell(w, cells, p), p);
        seq![seq![p] + walked.0] + trace_from(w, h, walked.1, i + 1)
    }
}

/// The deterministic contour trace of a whole grid: row-major scan for each
/// contour's start, greedy left/right/top/bottom walk for its extension.
pub open spec fn spec_trace(w: int, h: int, cells: Seq<bool>) -> Seq<Seq<(int, int)>> {
    trace_from(w, h, cells, 0)
}

pub(crate) proof fn lemma_contains_push<T>(s: Seq<T>, e: T, x: T)
    ensures
        s.push(e).contains(x) <==> (s.contains(x) || x == e),
{
    if s.push(e).contains(x) {
        let i = choose|i: int| 0 <= i < s.push(e).len() && s.push(e)[i] == x;
        if i < s.len() {
            assert(s[i] == x);
        }
    }
    if s.contains(x) {
        let i = choose|i: int| 0 <= i < s.len() && s[i] == x;
        assert(s.push(e)[i] == x);
    }
    if x == e {
        assert(s.push(e)[s.len() as int] == x);
    }
}

proof fn lemma_flat_of_push(cs: Seq<Vec<(usize, usize)>>, c: Vec<(usize, usize)>)
    ensures
        flat_of(contours_view(cs.push(c))) == flat_of(contours_view(cs)) + contour_view(c@),
{
    let full = contours_view(cs.push(c));
    assert(full.drop_last() =~= contours_view(cs));
    assert(full.last() == contour_view(c@));
}

/// Consume the whole boundary set into ordered contours.
///
/// The output is exactly `spec_trace` of the grid: the deterministic greedy
/// trace with a row-major scan and a left/right/top/bottom neighbor priority.
/// In particular every pixel of the input set lands in exactly one contour
/// (the flattened output has no duplicates and covers the set), no contour is
/// empty, and consecutive pixels of a contour are 4-connected.
pub fn trace_contours(b: &mut BoundarySet) -> (polys: Vec<Vec<(usize, usize)>>)
    requires
        old(b).wf(),
    ensures
        final(b).wf(),
        final(b).width == old(b).width,
        final(b).height == old(b).height,
        final(b)@ == Set::<(int, int)>::empty(),
        valid_trace(old(b)@, contours_view(polys@)),
        contours_view(polys@) == spec_trace(
            old(b).width as int,
            old(b).height as int,
            old(b).cells@,
        ),
{
    let width = b.width;
    let height = b.height;
    let ghost orig = b@;
    let ghost cells0 = b.cells@;
    let mut polys: Vec<Vec<(usize, usize)>> = Vec::new();
    let ghost mut visited: Seq<(int, int)> = Seq::<(int, int)>::empty();
    proof {
        assert(contours_view(polys@) =~= Seq::<Seq<(int, int)>>::empty());
        assert(contours_view(polys@) + trace_from(width as int, height as int, b.cells@, 0)
            =~= trace_from(width as int, height as int, b.cells@, 0));
        assert forall|yy: int| yy == 0 implies #[trigger] (yy * (width as int)) == 0 by {
            assert(yy * (width as int) == 0) by (nonlinear_arith)
                requires
                    yy == 0,
            ;
        }
    }
    for y in 0..height
        invariant
            b.wf(),
            b.width == width,
            b.height == height,
            cells0.len() == width * height,
            visited == flat_of(contours_view(polys@)),
            visited.no_duplicates(),
            forall|pp: (int, int)| visited.contains(pp) ==> !b@.contains(pp),
            forall|pp: (int, int)|
                orig.contains(pp) <==> (b@.contains(pp) || visited.contains(pp)),
            forall|k: int| 0 <= k < polys@.len() ==> contours_view(polys@)[k].len() > 0,
            forall|k: int| 0 <= k < polys@.len() ==> is_chain(contours_view(polys@)[k]),
            forall|xx: int, yy: int| 0 <= xx && 0 <= yy < y ==> !b@.contains((xx, yy)),
            trace_from(width as int, height as int, cells0, 0) == contours_view(polys@)
                + trace_from(width as int, height as int, b.cells@, y as int * width as int),
    {
        for x in 0..width
            invariant
                b.wf(),
                b.width == width,
                b.height == height,
                y < height,
                cells0.len() == width * height,
                visited == flat_of(contours_view(polys@)),
                visited.no_duplicates(),
                forall|pp: (int, int)| visited.contains(pp) ==> !b@.contains(pp),
                forall|pp: (int, int)|
                    orig.contains(pp) <==> (b@.contains(pp) || visited.contains(pp)),
                forall|k: int| 0 <= k < polys@.len() ==> contours_view(polys@)[k].len() > 0,
                forall|k: int| 0 <= k < polys@.len() ==> is_chain(contours_view(polys@)[k]),
                forall|xx: int, yy: int| 0 <= xx && 0 <= yy < y ==> !b@.contains((xx, yy)),
                forall|xx: int| 0 <= xx < x ==> !b@.contains((xx, y as int)),
                trace_from(width as int, height as int, cells0, 0) == contours_view(polys@)
                    + trace_from(
                    width as int,
                    height as int,
                    b.cells@,
                    y as int * width as int + x as int,
                ),
        {
            proof {
                lemma_grid_index(x as int, y as int, width as int, height as int);
            }
            if b.contains(x, y) {
                let ghost v0 = visited;
                let ghost cells_entry = b.cells@;
                proof {
                    assert(!v0.contains((x as int, y as int)));
                }
                b.remove(x, y);
                let mut cur: Vec<(usize, usize)> = Vec::new();
                cur.push((x, y));
                proof {
                    assert(b.cells@ == clear_cell(width as int, cells_entry, (x as int, y as int)));
                    visited = visited.push((x as int, y as int));
                    assert(contour_view(cur@) =~= Seq::<(int, int)>::empty().push(
                        (x as int, y as int),
                    ));
                    assert(visited =~= flat_of(contours_view(polys@)) + contour_view(cur@));
                    assert forall|pp: (int, int)| visited.contains(pp) implies (v0.contains(pp)
                        || pp == (x as int, y as int)) by {
                        lemma_contains_push(v0, (x as int, y as int), pp);
                    }
                    assert forall|pp: (int, int)| (v0.contains(pp) || pp == (x as int, y as int))
                        implies visited.contains(pp) by {
                        lemma_contains_push(v0, (x as int, y as int), pp);
                    }
                    assert(forall|i: int| 0 <= i < v0.len() ==> v0[i] != (x as int, y as int));
                }
                let ghost bstart = b@;
                let ghost bstart_cells = b.cells@;
                loop
                    invariant
                        b.wf(),
                        b.width == width,
                        b.height == height,
                        x < width,
                        y < height,
                        cur@.len() > 0,
                        cur@[0] == (x, y),
                        forall|i: int|
                            0 <= i < cur@.len() ==> (cur@[i].0 < width && cur@[i].1 < height),
                        is_chain(contour_view(cur@)),
                        visited == flat_of(contours_view(polys@)) + contour_view(cur@),
                        visited.no_duplicates(),
                        forall|pp: (int, int)| visited.contains(pp) ==> !b@.contains(pp),
                        forall|pp: (int, int)|
                            orig.contains(pp) <==> (b@.contains(pp) || visited.contains(pp)),
                        forall|pp: (int, int)| b@.contains(pp) ==> bstart.contains(pp),
                        bstart_cells.len() == width * height,
                        walk_from(width as int, height as int, bstart_cells, (x as int, y as int)).0
                            == contour_view(cur@).skip(1) + walk_from(
                            width as int,
                            height as int,
                            b.cells@,
                            (cur@.last().0 as int, cur@.last().1 as int),
                        ).0,
                        walk_from(width as int, height as int, bstart_cells, (x as int, y as int)).1
                            == walk_from(
                            width as int,
                            height as int,
                            b.cells@,
                            (cur@.last().0 as int, cur@.last().1 as int),
                        ).1,
                    ensures
                        b.wf(),
                        b.width == width,
                        b.height == height,
                        cur@.len() > 0,
                        cur@[0] == (x, y),
                        is_chain(contour_view(cur@)),
                        visited == flat_of(contours_view(polys@)) + contour_view(cur@),
                        visited.no_duplicates(),
                        forall|pp: (int, int)| visited.contains(pp) ==> !b@.contains(pp),
                        forall|pp: (int, int)|
                            orig.contains(pp) <==> (b@.contains(pp) || visited.contains(pp)),
                        forall|pp: (int, int)| b@.contains(pp) ==> bstart.contains(pp),
                        walk_from(width as int, height as int, bstart_cells, (x as int, y as int)).0
                            == contour_view(cur@).skip(1) + walk_from(
                            width as int,
                            height as int,
                            b.cells@,
                            (cur@.last().0 as int, cur@.last().1 as int),
                        ).0,
                        walk_from(width as int, height as int, bstart_cells, (x as int, y as int)).1
                            == walk_from(
                            width as int,
                            height as int,
                            b.cells@,
                            (cur@.last().0 as int, cur@.last().1 as int),
                        ).1,
                        next_neighbor(
                            width as int,
                            height as int,
                            b.cells@,
                            (cur@.last().0 as int, cur@.last().1 as int),
                        ) is None,
                    decreases count_true(b.cells@),
                {
                    let p = cur[cur.len() - 1];
                    let ns = neighbors(p, width, height, false);
                    let mut found: Option<(usize, usize)> = None;
                    for j in 0..8usize
                        invariant
                            b.wf(),
                            b.width == width,
                            b.height == height,
                            p.0 < width,
                            p.1 < height,
                            ns@.len() == 8,
                            forall|q: int|
                                0 <= q < 8 ==> ns@[q] == spec_neighbor(
                                    p.0 as int,
                                    p.1 as int,
                                    width as int,
                                    height as int,
                                    false,
                                    q,
                                ),
                            match found {
                                Some(q) => {
                                    &&& q.0 < width
                                    &&& q.1 < height
                                    &&& b@.contains((q.0 as int, q.1 as int))
                                    &&& adjacent4(
                                        (p.0 as int, p.1 as int),
                                        (q.0 as int, q.1 as int),
                                    )
                                    &&& next_neighbor(
                                        width as int,
                                        height as int,
                                        b.cells@,
                                        (p.0 as int, p.1 as int),
                                    ) == Some((q.0 as int, q.1 as int))
                                },
                                None => next_neighbor(
                                    width as int,
                                    height as int,
                                    b.cells@,
                                    (p.0 as int, p.1 as int),
                                ) == next_neighbor_from(
                                    width as int,
                                    height as int,
                                    b.cells@,
                                    (p.0 as int, p.1 as int),
                                    if j < 4 {
                                        j as int
                                    } else {
                                        4
                                    },
                                ),
                            },
                    {
                        if found.is_none() {
                            let ghost pi = (p.0 as int, p.1 as int);
                            let ghost jj = j as int;
                            let ghost qs = (
                                pi.0 + neighbor_offset(jj).0,
                                pi.1 + neighbor_offset(jj).1,
                            );
                            match ns[j] {
                                Some(q) => {
                                    if b.contains(q.0, q.1) {
                                        found = Some(q);
                                        proof {
                                            assert(ns@[jj] == spec_neighbor(
                                                pi.0,
                                                pi.1,
                                                width as int,
                                                height as int,
                                                false,
                                                jj,
                                            ));
                                            assert(jj < 4);
                                            assert((q.0 as int, q.1 as int) == qs);
                                            assert(cell_set(
                                                width as int,
                                                height as int,
                                                b.cells@,
                                                qs,
                                            ));
                                            assert(next_neighbor_from(
                                                width as int,
                                                height as int,
                                                b.cells@,
                                                pi,
                                                jj,
                                            ) == Some(qs));
                                            assert(adjacent4(pi, qs));
                                        }
                                    } else {
                                        proof {
                                            assert(jj < 4);
                                            assert((q.0 as int, q.1 as int) == qs);
                                            assert(!b@.contains(qs));
                                            assert(!cell_set(
                                                width as int,
                                                height as int,
                                                b.cells@,
                                                qs,
                                            ));
                                            assert(next_neighbor_from(
                                                width as int,
                                                height as int,
                                                b.cells@,
                                                pi,
                                                jj,
                                            ) == next_neighbor_from(
                                                width as int,
                                                height as int,
                                                b.cells@,
                                                pi,
                                                jj + 1,
                                            ));
                                        }
                                    }
                                },
                                None => {
                                    proof {
                                        if jj < 4 {
                                            assert(!cell_set(
                                                width as int,
                                                height as int,
                                                b.cells@,
                                                qs,
                                            ));
                                            assert(next_neighbor_from(
                                                width as int,
                                                height as int,
                                                b.cells@,
                                                pi,
                                                jj,
                                            ) == next_neighbor_from(
                                                width as int,
                                                height as int,
                                                b.cells@,
                                                pi,
                                                jj + 1,
                                            ));
                                        }
                                    }
                                },
                            }
                        }
                    }
                    match found {
                        None => {
                            proof {
                                assert(next_neighbor_from(
                                    width as int,
                                    height as int,
                                    b.cells@,
                                    (p.0 as int, p.1 as int),
                                    4,
                                ) is None);
                                assert(p == cur@.last());
                            }
                            break ;
                        },
                        Some(q) => {
                            let ghost v1 = visited;
                            let ghost c1 = cur@;
                            let ghost cells_a = b.cells@;
                            proof {
                                assert(!v1.contains((q.0 as int, q.1 as int)));
                            }
                            b.remove(q.0, q.1);
                            cur.push(q);
                            proof {
                                let wi = width as int;
                                let hi = height as int;
                                let qi = (q.0 as int, q.1 as int);
                                let pi = (p.0 as int, p.1 as int);
                                assert(p == c1.last());
                                assert(b.cells@ == clear_cell(wi, cells_a, qi));
                                assert(walk_from(wi, hi, cells_a, pi).0 == seq![qi] + walk_from(
                                    wi,
                                    hi,
                                    b.cells@,
                                    qi,
                                ).0);
                                assert(walk_from(wi, hi, cells_a, pi).1 == walk_from(
                                    wi,
                                    hi,
                                    b.cells@,
                                    qi,
                                ).1);
                                visited = visited.push(qi);
                                assert(contour_view(c1.push(q)) =~= contour_view(c1).push(qi));
                                assert(visited =~= flat_of(contours_view(polys@)) + contour_view(
                                    cur@,
                                ));
                                assert(contour_view(cur@).last() == qi);
                                assert(contour_view(cur@).drop_last() =~= contour_view(c1));
                                assert(is_chain(contour_view(cur@)));
                                assert(contour_view(cur@).skip(1) =~= contour_view(c1).skip(
                                    1,
                                ).push(qi));
                                assert(contour_view(c1).skip(1).push(qi) + walk_from(
                                    wi,
                                    hi,
                                    b.cells@,
                                    qi,
                                ).0 =~= contour_view(c1).skip(1) + (seq![qi] + walk_from(
                                    wi,
                                    hi,
                                    b.cells@,
                                    qi,
                                ).0));
                                assert(forall|i: int| 0 <= i < v1.len() ==> v1[i] != qi);
                                assert forall|pp: (int, int)| visited.contains(pp) implies (
                                v1.contains(pp) || pp == qi) by {
                                    lemma_contains_push(v1, qi, pp);
                                }
                                assert forall|pp: (int, int)| (v1.contains(pp) || pp == qi)
                                    implies visited.contains(pp) by {
                                    lemma_contains_push(v1, qi, pp);
                                }
                            }
                        },
                    }
                }
                proof {
                    assert forall|xx: int, yy: int| 0 <= xx && 0 <= yy < y implies !b@.contains(
                        (xx, yy),
                    ) by {
                        if b@.contains((xx, yy)) {
                            assert(bstart.contains((xx, yy)));
                        }
                    }
                    assert forall|xx: int| 0 <= xx <= x implies !b@.contains((xx, y as int)) by {
                        if b@.contains((xx, y as int)) {
                            assert(bstart.contains((xx, y as int)));
                        }
                    }
                }
                let ghost oldpolys = polys@;
                polys.push(cur);
                proof {
                    lemma_flat_of_push(oldpolys, cur);
                    assert(visited == flat_of(contours_view(polys@)));
                    assert forall|k: int| 0 <= k < polys@.len() implies contours_view(
                        polys@,
                    )[k].len() > 0 && is_chain(contours_view(polys@)[k]) by {
                        if k < oldpolys.len() {
                            assert(polys@[k] == oldpolys[k]);
                            assert(contours_view(polys@)[k] == contours_view(oldpolys)[k]);
                        } else {
                            assert(polys@[k] == cur);
                            assert(contours_view(polys@)[k] == contour_view(cur@));
                        }
                    }
                    let wi = width as int;
                    let hi = height as int;
                    let starti = (x as int, y as int);
                    let lasti = (cur@.last().0 as int, cur@.last().1 as int);
                    let i = y as int * wi + x as int;
                    assert(walk_from(wi, hi, b.cells@, lasti) == (
                        Seq::<(int, int)>::empty(),
                        b.cells@,
                    ));
                    assert(contour_view(cur@).skip(1) + Seq::<(int, int)>::empty()
                        =~= contour_view(cur@).skip(1));
                    assert(walk_from(wi, hi, bstart_cells, starti).0 == contour_view(cur@).skip(1));
                    assert(walk_from(wi, hi, bstart_cells, starti).1 == b.cells@);
                    vstd::arithmetic::div_mod::lemma_fundamental_div_mod_converse(
                        i,
                        wi,
                        y as int,
                        x as int,
                    );
                    assert((i % wi, i / wi) == starti);
                    assert(cells_entry[i]);
                    assert(clear_cell(wi, cells_entry, starti) == bstart_cells);
                    assert(seq![starti] + contour_view(cur@).skip(1) =~= contour_view(cur@));
                    assert(trace_from(wi, hi, cells_entry, i) == seq![contour_view(cur@)]
                        + trace_from(wi, hi, b.cells@, i + 1));
                    assert(contours_view(polys@) =~= contours_view(oldpolys) + seq![contour_view(
                        cur@,
                    )]);
                    assert(contours_view(oldpolys) + (seq![contour_view(cur@)] + trace_from(
                        wi,
                        hi,
                        b.cells@,
                        i + 1,
                    )) =~= (contours_view(oldpolys) + seq![contour_view(cur@)]) + trace_from(
                        wi,
                        hi,
                        b.cells@,
                        i + 1,
                    ));
                    assert(trace_from(wi, hi, cells0, 0) == contours_view(polys@) + trace_from(
                        wi,
                        hi,
                        b.cells@,
                        i + 1,
                    ));
                }
            } else {
                proof {
                    let wi = width as int;
                    let hi = height as int;
                    let i = y as int * wi + x as int;
                    assert(!b.cells@[i]);
                    assert(trace_from(wi, hi, b.cells@, i) == trace_from(wi, hi, b.cells@, i + 1));
                }
            }
        }
        proof {
            assert(y as int * width as int + width as int == (y as int + 1) * width as int)
                by (nonlinear_arith);
        }
    }
    proof {
        assert(b@ =~= Set::<(int, int)>::empty());
        assert(visited.to_set() =~= orig);
        let wi = width as int;
        let hi = height as int;
        assert(hi * wi == wi * hi) by (nonlinear_arith);
        assert(trace_from(wi, hi, b.cells@, hi * wi) == Seq::<Seq<(int, int)>>::empty());
        assert(contours_view(polys@) + Seq::<Seq<(int, int)>>::empty() =~= contours_view(polys@));
        assert(contours_view(polys@) == spec_trace(wi, hi, cells0));
    }
    polys
}

} // verus!
