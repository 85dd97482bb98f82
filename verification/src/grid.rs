//! The cell buffer for one generation and the Life step function that
//! computes the next generation across the cube's seams.

use crate::topology::cube_pixel_idx_in_bounds;
use crate::topology::cube_pixel_idx_out_bounds;
use crate::topology::lemma_pixel_index_injective;
use crate::topology::pixel_index;
use crate::topology::resolve_pixel;
use vstd::prelude::*;

verus! {

/// One generation of cells on the cube surface: six `width x width` faces
/// stored in one flat buffer, laid out as `pixel_index` describes.
#[derive(Debug)]
pub struct GolCube {
    pub data: Vec<bool>,
    pub width: usize,
}

impl GolCube {
    /// The buffer invariant: exactly `6 * width^2` cells.
    pub open spec fn well_formed(&self) -> bool {
        self.data.len() == 6 * (self.width as int) * (self.width as int)
    }

    /// A fresh all-dead cube of the given width.
    pub fn new(width: usize) -> (cube: GolCube)
        requires
            6 * (width as int) * (width as int) <= usize::MAX as int,
        ensures
            cube.width == width,
            cube.well_formed(),
            forall|i: int| 0 <= i < cube.data.len() ==> !cube.data@[i],
    {
        proof {
            assert((width as int) * (width as int) >= 0 && (width as int) * (width as int) <= 6 * (
            width as int) * (width as int) && 6 * ((width as int) * (width as int)) == 6 * (
            width as int) * (width as int)) by (nonlinear_arith);
        }
        let face_stride = width * width;
        let len = 6 * face_stride;
        let mut data: Vec<bool> = Vec::new();
        while data.len() < len
            invariant
                data.len() <= len,
                forall|i: int| 0 <= i < data.len() ==> !data@[i],
            decreases len - data.len(),
        {
            data.push(false);
        }
        GolCube { data, width }
    }
}

/// The standard Life rule: a live cell survives with 2 or 3 live neighbors,
/// a dead cell is born with exactly 3.
pub open spec fn life_rule(alive: bool, neighbors: int) -> bool {
    if alive {
        neighbors == 2 || neighbors == 3
    } else {
        neighbors == 3
    }
}

/// What one neighbor query contributes to a cell's count: the resolved
/// cell's value, or the fallback where the query falls past a cube corner.
pub open spec fn neighbor_contrib(
    cells: Seq<bool>,
    u: int,
    v: int,
    du: int,
    dv: int,
    sign: bool,
    dim: int,
    width: int,
    corner: bool,
) -> int {
    match resolve_pixel(u + du, v + dv, sign, dim, width) {
        Some(i) => if cells[i] {
            1int
        } else {
            0int
        },
        None => if corner {
            1int
        } else {
            0int
        },
    }
}

/// Number of live neighbors of the cell at `(u, v)` on face `(dim, sign)`:
/// the eight single-step offsets, each resolved across seams, with corner
/// diagonals counted as the fallback value.
pub open spec fn live_neighbors(
    cells: Seq<bool>,
    u: int,
    v: int,
    sign: bool,
    dim: int,
    width: int,
    corner: bool,
) -> int {
    neighbor_contrib(cells, u, v, -1, -1, sign, dim, width, corner) + neighbor_contrib(
        cells,
        u,
        v,
        -1,
        0,
        sign,
        dim,
        width,
        corner,
    ) + neighbor_contrib(cells, u, v, -1, 1, sign, dim, width, corner) + neighbor_contrib(
        cells,
        u,
        v,
        0,
        -1,
        sign,
        dim,
        width,
        corner,
    ) + neighbor_contrib(cells, u, v, 0, 1, sign, dim, width, corner) + neighbor_contrib(
        cells,
        u,
        v,
        1,
        -1,
        sign,
        dim,
        width,
        corner,
    ) + neighbor_contrib(cells, u, v, 1, 0, sign, dim, width, corner) + neighbor_contrib(
        cells,
        u,
        v,
        1,
        1,
        sign,
        dim,
        width,
        corner,
    )
}

/// The next generation's value of the cell at `(u, v)` on face `(dim, sign)`.
#[verifier::opaque]
pub open spec fn next_cell(
    cells: Seq<bool>,
    u: int,
    v: int,
    sign: bool,
    dim: int,
    width: int,
    corner: bool,
) -> bool {
    life_rule(
        cells[pixel_index(u, v, sign, dim, width)],
        live_neighbors(cells, u, v, sign, dim, width, corner),
    )
}

/// A width whose cube buffer fits in a `usize` is small enough that face
/// coordinates, shifted one step out of range, still fit in an `isize`.
proof fn lemma_width_fits_isize(w: int)
    requires
        0 <= w,
        6 * w * w <= usize::MAX as int,
    ensures
        w + 1 <= isize::MAX as int,
{
    if w >= 2 {
        assert(12 * w <= 6 * w * w) by (nonlinear_arith)
            requires
                w >= 2,
        ;
    }
}

/// The value one neighbor query adds to a cell's live count.
fn neighbor_value(
    read: &GolCube,
    u: usize,
    v: usize,
    du: isize,
    dv: isize,
    sign: bool,
    dim: usize,
    corner_val: bool,
) -> (c: usize)
    requires
        read.well_formed(),
        u < read.width,
        v < read.width,
        dim < 3,
        -1 <= du as int <= 1,
        -1 <= dv as int <= 1,
    ensures
        c == neighbor_contrib(
            read.data@,
            u as int,
            v as int,
            du as int,
            dv as int,
            sign,
            dim as int,
            read.width as int,
            corner_val,
        ),
        c <= 1,
{
    proof {
        lemma_width_fits_isize(read.width as int);
    }
    let iu = u as isize + du;
    let iv = v as isize + dv;
    match cube_pixel_idx_out_bounds(iu, iv, sign, dim, read.width) {
        Some(idx) => if read.data[idx] {
            1
        } else {
            0
        },
        None => if corner_val {
            1
        } else {
            0
        },
    }
}

/// Compute what the Life rule makes of one cell of the current generation.
fn next_cell_value(read: &GolCube, u: usize, v: usize, sign: bool, dim: usize, corner_val: bool) -> (alive: bool)
    requires
        read.well_formed(),
        u < read.width,
        v < read.width,
        dim < 3,
    ensures
        alive == next_cell(
            read.data@,
            u as int,
            v as int,
            sign,
            dim as int,
            read.width as int,
            corner_val,
        ),
{
    proof {
        reveal(next_cell);
    }
    let mut neighbors: usize = 0;
    neighbors += neighbor_value(read, u, v, -1, -1, sign, dim, corner_val);
    neighbors += neighbor_value(read, u, v, -1, 0, sign, dim, corner_val);
    neighbors += neighbor_value(read, u, v, -1, 1, sign, dim, corner_val);
    neighbors += neighbor_value(read, u, v, 0, -1, sign, dim, corner_val);
    neighbors += neighbor_value(read, u, v, 0, 1, sign, dim, corner_val);
    neighbors += neighbor_value(read, u, v, 1, -1, sign, dim, corner_val);
    neighbors += neighbor_value(read, u, v, 1, 0, sign, dim, corner_val);
    neighbors += neighbor_value(read, u, v, 1, 1, sign, dim, corner_val);
    let center_idx = cube_pixel_idx_in_bounds(u, v, sign, dim, read.width);
    let center = read.data[center_idx];
    if center {
        neighbors == 2 || neighbors == 3
    } else {
        neighbors == 3
    }
}

/// Cells the step sweep has already written, in its face-major order: faces
/// by `dim` then sign (low before high), and within a face by `u` then `v`.
spec fn swept(
    d2: int,
    s2: bool,
    u2: int,
    v2: int,
    d: int,
    s: int,
    u: int,
    v: int,
) -> bool {
    let s2i: int = if s2 {
        1
    } else {
        0
    };
    d2 < d || (d2 == d && (s2i < s || (s2i == s && (u2 < u || (u2 == u && v2 < v)))))
}

/// Compute the next generation of `read` into `write`: for every cell of
/// every face, count live neighbors through the seam-resolving topology and
/// apply the Life rule. `write` is fully overwritten; `read` is untouched.
#[verifier::rlimit(100)]
pub fn step(read: &GolCube, write: &mut GolCube, corner_val: bool)
    requires
        read.well_formed(),
        old(write).well_formed(),
        old(write).width == read.width,
    ensures
        final(write).width == read.width,
        final(write).well_formed(),
        forall|d2: int, s2: bool, u2: int, v2: int|
            0 <= d2 < 3 && 0 <= u2 < read.width && 0 <= v2 < read.width ==> final(write).data@[#[trigger] pixel_index(u2, v2, s2, d2, read.width as int)] == next_cell(
                read.data@,
                u2,
                v2,
                s2,
                d2,
                read.width as int,
                corner_val,
            ),
{
    let width = read.width;
    let ghost w = width as int;
    let mut dim: usize = 0;
    while dim < 3
        invariant
            w == width as int,
            dim <= 3,
            read.well_formed(),
            read.width == width,
            write.width == width,
            write.well_formed(),
            forall|d2: int, s2: bool, u2: int, v2: int|
                0 <= d2 < 3 && 0 <= u2 < w && 0 <= v2 < w && swept(
                    d2,
                    s2,
                    u2,
                    v2,
                    dim as int,
                    0,
                    0,
                    0,
                ) ==> write.data@[#[trigger] pixel_index(u2, v2, s2, d2, w)] == next_cell(
                    read.data@,
                    u2,
                    v2,
                    s2,
                    d2,
                    w,
                    corner_val,
                ),
        decreases 3 - dim,
    {
        let mut si: usize = 0;
        while si < 2
            invariant
                w == width as int,
                dim < 3,
                si <= 2,
                read.well_formed(),
                read.width == width,
                write.width == width,
                write.well_formed(),
                forall|d2: int, s2: bool, u2: int, v2: int|
                    0 <= d2 < 3 && 0 <= u2 < w && 0 <= v2 < w && swept(
                        d2,
                        s2,
                        u2,
                        v2,
                        dim as int,
                        si as int,
                        0,
                        0,
                    ) ==> write.data@[#[trigger] pixel_index(u2, v2, s2, d2, w)] == next_cell(
                        read.data@,
                        u2,
                        v2,
                        s2,
                        d2,
                        w,
                        corner_val,
                    ),
            decreases 2 - si,
        {
            let sign = si == 1;
            let mut u: usize = 0;
            while u < width
                invariant
                    w == width as int,
                    dim < 3,
                    si < 2,
                    sign == (si == 1),
                    u <= width,
                    read.well_formed(),
                    read.width == width,
                    write.width == width,
                    write.well_formed(),
                    forall|d2: int, s2: bool, u2: int, v2: int|
                        0 <= d2 < 3 && 0 <= u2 < w && 0 <= v2 < w && swept(
                            d2,
                            s2,
                            u2,
                            v2,
                            dim as int,
                            si as int,
                            u as int,
                            0,
                        ) ==> write.data@[#[trigger] pixel_index(u2, v2, s2, d2, w)] == next_cell(
                            read.data@,
                            u2,
                            v2,
                            s2,
                            d2,
                            w,
                            corner_val,
                        ),
                decreases width - u,
            {
                let mut v: usize = 0;
                while v < width
                    invariant
                        w == width as int,
                        dim < 3,
                        si < 2,
                        sign == (si == 1),
                        u < width,
                        v <= width,
                        read.well_formed(),
                        read.width == width,
                        write.width == width,
                        write.well_formed(),
                        forall|d2: int, s2: bool, u2: int, v2: int|
                            0 <= d2 < 3 && 0 <= u2 < w && 0 <= v2 < w && swept(
                                d2,
                                s2,
                                u2,
                                v2,
                                dim as int,
                                si as int,
                                u as int,
                                v as int,
                            ) ==> write.data@[#[trigger] pixel_index(u2, v2, s2, d2, w)] == next_cell(
                                read.data@,
                                u2,
                                v2,
                                s2,
                                d2,
                                w,
                                corner_val,
                            ),
                    decreases width - v,
                {
                    let alive = next_cell_value(read, u, v, sign, dim, corner_val);
                    let center_idx = cube_pixel_idx_in_bounds(u, v, sign, dim, width);
                    write.data.set(center_idx, alive);
                    proof {
                        assert forall|d2: int, s2: bool, u2: int, v2: int|
                            0 <= d2 < 3 && 0 <= u2 < w && 0 <= v2 < w && swept(
                                d2,
                                s2,
                                u2,
                                v2,
                                dim as int,
                                si as int,
                                u as int,
                                v as int,
                            ) implies pixel_index(u2, v2, s2, d2, w) != center_idx as int && 0
                            <= pixel_index(u2, v2, s2, d2, w) < write.data@.len() by {
                            crate::topology::lemma_pixel_index_in_range(u2, v2, s2, d2, w);
                            if pixel_index(u2, v2, s2, d2, w) == center_idx as int {
                                lemma_pixel_index_injective(
                                    u2,
                                    v2,
                                    s2,
                                    d2,
                                    u as int,
                                    v as int,
                                    sign,
                                    dim as int,
                                    w,
                                );
                            }
                        }
                    }
                    v += 1;
                }
                u += 1;
            }
            si += 1;
        }
        dim += 1;
    }
}

/// What the step writes into a cell is exactly the Life rule applied to the
/// cell's current value and its live-neighbor count: a live cell survives if
/// and only if it counts 2 or 3 live neighbors, a dead cell is born if and
/// only if it counts exactly 3, and every other count leaves the cell dead.
pub proof fn lemma_step_applies_life_rule(
    cells: Seq<bool>,
    u: int,
    v: int,
    sign: bool,
    dim: int,
    width: int,
    corner: bool,
)
    ensures
        next_cell(cells, u, v, sign, dim, width, corner) == life_rule(
            cells[pixel_index(u, v, sign, dim, width)],
            live_neighbors(cells, u, v, sign, dim, width, corner),
        ),
{
    reveal(next_cell);
}

/// In a flat region away from every seam, the neighbor count is the sum of
/// the eight surrounding cells of the same face, exactly as in planar Life;
/// the corner fallback plays no part.
pub proof fn lemma_interior_count_planar(
    cells: Seq<bool>,
    u: int,
    v: int,
    sign: bool,
    dim: int,
    width: int,
    corner: bool,
)
    requires
        width >= 2,
        1 <= u <= width - 2,
        1 <= v <= width - 2,
        0 <= dim < 3,
    ensures
        live_neighbors(cells, u, v, sign, dim, width, corner) == (if cells[pixel_index(u - 1, v - 1, sign, dim, width)] {
            1int
        } else {
            0int
        }) + (if cells[pixel_index(u - 1, v, sign, dim, width)] {
            1int
        } else {
            0int
        }) + (if cells[pixel_index(u - 1, v + 1, sign, dim, width)] {
            1int
        } else {
            0int
        }) + (if cells[pixel_index(u, v - 1, sign, dim, width)] {
            1int
        } else {
            0int
        }) + (if cells[pixel_index(u, v + 1, sign, dim, width)] {
            1int
        } else {
            0int
        }) + (if cells[pixel_index(u + 1, v - 1, sign, dim, width)] {
            1int
        } else {
            0int
        }) + (if cells[pixel_index(u + 1, v, sign, dim, width)] {
            1int
        } else {
            0int
        }) + (if cells[pixel_index(u + 1, v + 1, sign, dim, width)] {
            1int
        } else {
            0int
        }),
{
    crate::topology::lemma_interior_resolves_same_face(u, v, -1, -1, sign, dim, width);
    crate::topology::lemma_interior_resolves_same_face(u, v, -1, 0, sign, dim, width);
    crate::topology::lemma_interior_resolves_same_face(u, v, -1, 1, sign, dim, width);
    crate::topology::lemma_interior_resolves_same_face(u, v, 0, -1, sign, dim, width);
    crate::topology::lemma_interior_resolves_same_face(u, v, 0, 1, sign, dim, width);
    crate::topology::lemma_interior_resolves_same_face(u, v, 1, -1, sign, dim, width);
    crate::topology::lemma_interior_resolves_same_face(u, v, 1, 0, sign, dim, width);
    crate::topology::lemma_interior_resolves_same_face(u, v, 1, 1, sign, dim, width);
}

/// On an all-dead cube with a dead corner fallback every neighbor count is
/// zero, so no cell is born.
pub proof fn lemma_all_dead_cell_stays_dead(
    cells: Seq<bool>,
    u: int,
    v: int,
    sign: bool,
    dim: int,
    width: int,
)
    requires
        width >= 1,
        0 <= dim < 3,
        0 <= u < width,
        0 <= v < width,
        cells.len() == 6 * width * width,
        forall|i: int| 0 <= i < cells.len() ==> !cells[i],
    ensures
        live_neighbors(cells, u, v, sign, dim, width, false) == 0,
        !next_cell(cells, u, v, sign, dim, width, false),
{
    reveal(next_cell);
    crate::topology::lemma_resolve_in_range(u - 1, v - 1, sign, dim, width);
    crate::topology::lemma_resolve_in_range(u - 1, v, sign, dim, width);
    crate::topology::lemma_resolve_in_range(u - 1, v + 1, sign, dim, width);
    crate::topology::lemma_resolve_in_range(u, v - 1, sign, dim, width);
    crate::topology::lemma_resolve_in_range(u, v + 1, sign, dim, width);
    crate::topology::lemma_resolve_in_range(u + 1, v - 1, sign, dim, width);
    crate::topology::lemma_resolve_in_range(u + 1, v, sign, dim, width);
    crate::topology::lemma_resolve_in_range(u + 1, v + 1, sign, dim, width);
    crate::topology::lemma_pixel_index_in_range(u, v, sign, dim, width);
}

/// The step contract pins the whole output buffer: read back through the
/// index bijection, cell `i` of the next generation is the Life rule applied
/// at the face and coordinates that `i` decodes to, so no cell is left
/// unconstrained.
pub proof fn lemma_step_determines_every_cell(
    cells: Seq<bool>,
    out: Seq<bool>,
    width: int,
    corner: bool,
    i: int,
)
    requires
        width >= 1,
        out.len() == 6 * width * width,
        0 <= i < out.len(),
        forall|d2: int, s2: bool, u2: int, v2: int|
            0 <= d2 < 3 && 0 <= u2 < width && 0 <= v2 < width ==> out[#[trigger] pixel_index(
                u2,
                v2,
                s2,
                d2,
                width,
            )] == next_cell(cells, u2, v2, s2, d2, width, corner),
    ensures
        out[i] == next_cell(
            cells,
            crate::topology::index_u(i, width),
            crate::topology::index_v(i, width),
            crate::topology::index_sign(i, width),
            crate::topology::index_dim(i, width),
            width,
            corner,
        ),
{
    crate::topology::lemma_pixel_index_encode(i, width);
}

/// Stepping an all-dead cube yields an all-dead cube: the conclusion of the
/// step contract, read back through the index bijection, leaves every cell
/// of the output buffer dead.
pub proof fn lemma_step_preserves_all_dead(cells: Seq<bool>, out: Seq<bool>, width: int)
    requires
        width >= 1,
        cells.len() == 6 * width * width,
        out.len() == 6 * width * width,
        forall|i: int| 0 <= i < cells.len() ==> !cells[i],
        forall|d2: int, s2: bool, u2: int, v2: int|
            0 <= d2 < 3 && 0 <= u2 < width && 0 <= v2 < width ==> out[#[trigger] pixel_index(
                u2,
                v2,
                s2,
                d2,
                width,
            )] == next_cell(cells, u2, v2, s2, d2, width, false),
    ensures
        forall|i: int| 0 <= i < out.len() ==> !out[i],
{
    assert forall|i: int| 0 <= i < out.len() implies !out[i] by {
        lemma_step_determines_every_cell(cells, out, width, false, i);
        crate::topology::lemma_pixel_index_encode(i, width);
        lemma_all_dead_cell_stays_dead(
            cells,
            crate::topology::index_u(i, width),
            crate::topology::index_v(i, width),
            crate::topology::index_sign(i, width),
            crate::topology::index_dim(i, width),
            width,
        );
    }
}

} // verus!

