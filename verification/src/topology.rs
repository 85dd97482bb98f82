//! Pure coordinate math for the cube surface: six `width x width` faces
//! stored in one flat buffer, and the seam resolution that maps a neighbor
//! offset falling off one face onto the adjacent face.

use vstd::prelude::*;

verus! {

/// Position of a face along its normal axis, in cell units: the `high` face
/// sits at `width - 1`, the `low` face at `0`.
pub open spec fn sign_coord(sign: bool, width: int) -> int {
    if sign {
        width - 1
    } else {
        0
    }
}

/// Linear index of the cell `(u, v)` on face `(dim, sign)` in the flat
/// buffer: faces are laid out by `dim` (each axis holding its low face, then
/// its high face), and each face is row-major by `(v, u)`.
pub open spec fn pixel_index(u: int, v: int, sign: bool, dim: int, width: int) -> int {
    dim * 2 * width * width + (if sign {
        width * width
    } else {
        0
    }) + v * width + u
}

/// Return the index of the pixel at the given face and coordinates.
pub fn cube_pixel_idx_in_bounds(u: usize, v: usize, sign: bool, dim: usize, width: usize) -> (idx:
    usize)
    requires
        u < width,
        v < width,
        dim < 3,
        6 * (width as int) * (width as int) <= usize::MAX as int,
    ensures
        idx == pixel_index(u as int, v as int, sign, dim as int, width as int),
        idx < 6 * (width as int) * (width as int),
{
    proof {
        lemma_pixel_index_in_range(u as int, v as int, sign, dim as int, width as int);
        assert(0 <= (width as int) * (width as int) && (width as int) * (width as int) <= 6 * (
        width as int) * (width as int) && 0 <= (dim as int) * ((width as int) * (width as int)) && 0
            <= (v as int) * (width as int) && (dim as int) * ((width as int) * (width as int)) * 2
            == (dim as int) * 2 * (width as int) * (width as int) && (dim as int) * ((width as int)
            * (width as int)) * 2 + ((width as int) * (width as int)) + (v as int) * (width as int)
            + (u as int) < 6 * (width as int) * (width as int)) by (nonlinear_arith)
            requires
                u < width,
                v < width,
                dim < 3,
        ;
    }
    let face_stride = width * width;
    let dim_base = dim * face_stride * 2;
    let face_base = dim_base + if sign {
        face_stride
    } else {
        0
    };
    let row_base = face_base + v * width;
    row_base + u
}

/// Whether a single coordinate lies inside a face of the given width.
pub open spec fn in_face_range(x: int, width: int) -> bool {
    0 <= x < width
}

/// Where a neighbor query lands. In-range coordinates stay on the same face.
/// When exactly one coordinate steps off the face, the cell lives on an
/// adjacent face: the overflowed axis becomes the new face's normal (its
/// value, low or high, picks the new face's sign), the old normal axis
/// re-enters the face as a coordinate at `sign_coord`, and `dim` advances by
/// a cyclic axis permutation. When both coordinates step off at once the
/// query points past a cube corner, which no single face owns: `None`.
pub open spec fn resolve_pixel(u: int, v: int, sign: bool, dim: int, width: int) -> Option<int> {
    if in_face_range(u, width) && in_face_range(v, width) {
        Some(pixel_index(u, v, sign, dim, width))
    } else if !in_face_range(u, width) && !in_face_range(v, width) {
        None
    } else if !in_face_range(u, width) {
        Some(pixel_index(v, sign_coord(sign, width), u > 0, (dim + 2) % 3, width))
    } else {
        Some(pixel_index(sign_coord(sign, width), u, v > 0, (dim + 1) % 3, width))
    }
}

/// Return the index of the pixel at the given face and coordinates, handling
/// boundary cases. Returns `None` when the given index does not exist (the
/// corner-diagonal case).
pub fn cube_pixel_idx_out_bounds(u: isize, v: isize, sign: bool, dim: usize, width: usize) -> (idx:
    Option<usize>)
    requires
        width >= 1,
        dim < 3,
        -1 <= u as int <= width as int,
        -1 <= v as int <= width as int,
        6 * (width as int) * (width as int) <= usize::MAX as int,
    ensures
        match idx {
            Some(i) => resolve_pixel(u as int, v as int, sign, dim as int, width as int) == Some(
                i as int,
            ) && i < 6 * (width as int) * (width as int),
            None => resolve_pixel(u as int, v as int, sign, dim as int, width as int) is None,
        },
{
    let u_out = u < 0 || u as usize >= width;
    let v_out = v < 0 || v as usize >= width;
    if !u_out && !v_out {
        Some(cube_pixel_idx_in_bounds(u as usize, v as usize, sign, dim, width))
    } else if u_out && v_out {
        None
    } else if u_out {
        // The overflowed u axis becomes the new normal; the old normal
        // re-enters as the v coordinate of the neighboring face.
        let s: usize = if sign {
            width - 1
        } else {
            0
        };
        Some(cube_pixel_idx_in_bounds(v as usize, s, u > 0, (dim + 2) % 3, width))
    } else {
        // The overflowed v axis becomes the new normal; the old normal
        // re-enters as the u coordinate of the neighboring face.
        let s: usize = if sign {
            width - 1
        } else {
            0
        };
        Some(cube_pixel_idx_in_bounds(s, u as usize, v > 0, (dim + 1) % 3, width))
    }
}

/// Every in-range cell address maps below `6 * width^2`.
pub proof fn lemma_pixel_index_in_range(u: int, v: int, sign: bool, dim: int, width: int)
    requires
        0 <= u < width,
        0 <= v < width,
        0 <= dim < 3,
    ensures
        0 <= pixel_index(u, v, sign, dim, width) < 6 * width * width,
{
    assert(0 <= pixel_index(u, v, sign, dim, width) < 6 * width * width) by (nonlinear_arith)
        requires
            0 <= u < width,
            0 <= v < width,
            0 <= dim < 3,
    ;
}

/// The face axis a linear index falls on.
pub open spec fn index_dim(i: int, width: int) -> int {
    i / (2 * width * width)
}

/// The face sign a linear index falls on.
pub open spec fn index_sign(i: int, width: int) -> bool {
    i % (2 * width * width) >= width * width
}

/// The v coordinate a linear index falls on.
pub open spec fn index_v(i: int, width: int) -> int {
    (i % (width * width)) / width
}

/// The u coordinate a linear index falls on.
pub open spec fn index_u(i: int, width: int) -> int {
    i % width
}

/// Decoding a cell address recovers the face and coordinates it was built
/// from: `pixel_index` never collides on distinct valid tuples.
pub proof fn lemma_pixel_index_decode(u: int, v: int, sign: bool, dim: int, width: int)
    requires
        0 <= u < width,
        0 <= v < width,
        0 <= dim < 3,
    ensures
        index_u(pixel_index(u, v, sign, dim, width), width) == u,
        index_v(pixel_index(u, v, sign, dim, width), width) == v,
        index_sign(pixel_index(u, v, sign, dim, width), width) == sign,
        index_dim(pixel_index(u, v, sign, dim, width), width) == dim,
{
    let i = pixel_index(u, v, sign, dim, width);
    let s: int = if sign {
        1
    } else {
        0
    };
    let rem2 = v * width + u;
    let rem = s * (width * width) + rem2;
    assert(0 <= rem2 < width * width && 0 <= rem < 2 * (width * width) && i == dim * (2 * (width
        * width)) + rem && i == (2 * dim + s) * (width * width) + rem2 && i == ((2 * dim + s)
        * width + v) * width + u && (sign ==> rem >= width * width) && (!sign ==> rem < width
        * width)) by (nonlinear_arith)
        requires
            0 <= u < width,
            0 <= v < width,
            0 <= dim < 3,
            s == if sign {
                1int
            } else {
                0int
            },
            rem2 == v * width + u,
            rem == s * (width * width) + rem2,
            i == pixel_index(u, v, sign, dim, width),
    ;
    vstd::arithmetic::div_mod::lemma_fundamental_div_mod_converse(i, 2 * (width * width), dim, rem);
    vstd::arithmetic::div_mod::lemma_fundamental_div_mod_converse(
        i,
        width * width,
        2 * dim + s,
        rem2,
    );
    vstd::arithmetic::div_mod::lemma_fundamental_div_mod_converse(
        i,
        width,
        (2 * dim + s) * width + v,
        u,
    );
    vstd::arithmetic::div_mod::lemma_fundamental_div_mod_converse(rem2, width, v, u);
    assert(2 * (width * width) == 2 * width * width) by (nonlinear_arith);
}

/// Every index below `6 * width^2` decodes to a valid face and coordinate
/// pair, and encoding that decoded tuple gives the index back: together with
/// `lemma_pixel_index_decode` this makes `pixel_index` a bijection between
/// the valid `(dim, sign, v, u)` tuples and `[0, 6 * width^2)`.
pub proof fn lemma_pixel_index_encode(i: int, width: int)
    requires
        width >= 1,
        0 <= i < 6 * width * width,
    ensures
        0 <= index_u(i, width) < width,
        0 <= index_v(i, width) < width,
        0 <= index_dim(i, width) < 3,
        pixel_index(index_u(i, width), index_v(i, width), index_sign(i, width), index_dim(i, width), width) == i,
{
    let fs = width * width;
    assert(fs >= 1 && 6 * width * width == 3 * (2 * fs)) by (nonlinear_arith)
        requires
            width >= 1,
            fs == width * width,
    ;
    vstd::arithmetic::div_mod::lemma_fundamental_div_mod(i, 2 * fs);
    vstd::arithmetic::div_mod::lemma_mod_pos_bound(i, 2 * fs);
    let dim = i / (2 * fs);
    let rem = i % (2 * fs);
    assert(0 <= dim < 3) by (nonlinear_arith)
        requires
            0 <= i < 3 * (2 * fs),
            fs >= 1,
            i == 2 * fs * dim + rem,
            0 <= rem < 2 * fs,
    ;
    let sign = rem >= fs;
    let s: int = if sign {
        1
    } else {
        0
    };
    let rem2 = rem - s * fs;
    assert(0 <= rem2 < fs);
    vstd::arithmetic::div_mod::lemma_fundamental_div_mod(rem2, width);
    vstd::arithmetic::div_mod::lemma_mod_pos_bound(rem2, width);
    let v = rem2 / width;
    let u = rem2 % width;
    assert(0 <= v < width) by (nonlinear_arith)
        requires
            0 <= rem2 < fs,
            fs == width * width,
            width >= 1,
            rem2 == width * v + u,
            0 <= u < width,
    ;
    assert(i == (2 * dim + s) * fs + rem2 && i == ((2 * dim + s) * width + v) * width + u && i
        == pixel_index(u, v, sign, dim, width)) by (nonlinear_arith)
        requires
            fs == width * width,
            i == 2 * fs * dim + rem,
            rem == s * fs + rem2,
            rem2 == width * v + u,
            pixel_index(u, v, sign, dim, width) == dim * 2 * width * width + s * (width * width) + v
                * width + u,
    ;
    vstd::arithmetic::div_mod::lemma_fundamental_div_mod_converse(i, fs, 2 * dim + s, rem2);
    vstd::arithmetic::div_mod::lemma_fundamental_div_mod_converse(
        i,
        width,
        (2 * dim + s) * width + v,
        u,
    );
    assert(2 * (width * width) == 2 * width * width) by (nonlinear_arith);
    assert(index_dim(i, width) == dim && index_sign(i, width) == sign);
    assert(index_v(i, width) == v && index_u(i, width) == u);
}

/// Distinct valid face/coordinate tuples always get distinct cell addresses.
pub proof fn lemma_pixel_index_injective(
    u1: int,
    v1: int,
    sign1: bool,
    dim1: int,
    u2: int,
    v2: int,
    sign2: bool,
    dim2: int,
    width: int,
)
    requires
        0 <= u1 < width,
        0 <= v1 < width,
        0 <= dim1 < 3,
        0 <= u2 < width,
        0 <= v2 < width,
        0 <= dim2 < 3,
        pixel_index(u1, v1, sign1, dim1, width) == pixel_index(u2, v2, sign2, dim2, width),
    ensures
        u1 == u2,
        v1 == v2,
        sign1 == sign2,
        dim1 == dim2,
{
    lemma_pixel_index_decode(u1, v1, sign1, dim1, width);
    lemma_pixel_index_decode(u2, v2, sign2, dim2, width);
}

/// Every address the seam resolution returns is a valid cell address.
pub proof fn lemma_resolve_in_range(u: int, v: int, sign: bool, dim: int, width: int)
    requires
        width >= 1,
        0 <= dim < 3,
    ensures
        resolve_pixel(u, v, sign, dim, width) matches Some(i) ==> 0 <= i < 6 * width * width,
{
    if dim == 0 {
    } else if dim == 1 {
    } else {
    }
    if in_face_range(u, width) && in_face_range(v, width) {
        lemma_pixel_index_in_range(u, v, sign, dim, width);
    } else if !in_face_range(u, width) && in_face_range(v, width) {
        lemma_pixel_index_in_range(v, sign_coord(sign, width), u > 0, (dim + 2) % 3, width);
    } else if in_face_range(u, width) && !in_face_range(v, width) {
        lemma_pixel_index_in_range(sign_coord(sign, width), u, v > 0, (dim + 1) % 3, width);
    }
}

/// On a cube of width at least 2, every neighbor offset of an interior cell
/// (at least one cell away from every edge) resolves on the same face.
pub proof fn lemma_interior_resolves_same_face(
    u: int,
    v: int,
    du: int,
    dv: int,
    sign: bool,
    dim: int,
    width: int,
)
    requires
        width >= 2,
        1 <= u <= width - 2,
        1 <= v <= width - 2,
        -1 <= du <= 1,
        -1 <= dv <= 1,
        0 <= dim < 3,
    ensures
        resolve_pixel(u + du, v + dv, sign, dim, width) == Some(
            pixel_index(u + du, v + dv, sign, dim, width),
        ),
{
}

/// On a width-1 cube every face is a single cell, so every neighbor offset
/// crosses a seam: the four axis-aligned offsets resolve to the adjacent
/// face's only cell, and the four diagonal ones fall past a corner and have
/// no owning face.
pub proof fn lemma_width_one_all_seams(du: int, dv: int, sign: bool, dim: int)
    requires
        -1 <= du <= 1,
        -1 <= dv <= 1,
        !(du == 0 && dv == 0),
        0 <= dim < 3,
    ensures
        du != 0 && dv != 0 ==> resolve_pixel(du, dv, sign, dim, 1) is None,
        du != 0 && dv == 0 ==> resolve_pixel(du, dv, sign, dim, 1) == Some(
            pixel_index(0, 0, du > 0, (dim + 2) % 3, 1),
        ),
        du == 0 && dv != 0 ==> resolve_pixel(du, dv, sign, dim, 1) == Some(
            pixel_index(0, 0, dv > 0, (dim + 1) % 3, 1),
        ),
{
}

/// Seam consistency: a neighbor query that crosses an edge of face
/// `(dim, sign)` lands on a cell of the adjacent face, and the matching
/// query from that landing cell, pointed back across the same edge, lands on
/// the boundary cell of `(dim, sign)` that the first query started from.
/// The four clause pairs cover the four edges of a face: u overflowing high
/// and low, then v overflowing high and low.
pub proof fn lemma_seam_symmetry(t: int, sign: bool, dim: int, width: int)
    requires
        width >= 1,
        0 <= t < width,
        0 <= dim < 3,
    ensures
        resolve_pixel(width, t, sign, dim, width) == Some(
            pixel_index(t, sign_coord(sign, width), true, (dim + 2) % 3, width),
        ),
        resolve_pixel(
            t,
            if sign {
                width
            } else {
                -1
            },
            true,
            (dim + 2) % 3,
            width,
        ) == Some(pixel_index(width - 1, t, sign, dim, width)),
        resolve_pixel(-1, t, sign, dim, width) == Some(
            pixel_index(t, sign_coord(sign, width), false, (dim + 2) % 3, width),
        ),
        resolve_pixel(
            t,
            if sign {
                width
            } else {
                -1
            },
            false,
            (dim + 2) % 3,
            width,
        ) == Some(pixel_index(0, t, sign, dim, width)),
        resolve_pixel(t, width, sign, dim, width) == Some(
            pixel_index(sign_coord(sign, width), t, true, (dim + 1) % 3, width),
        ),
        resolve_pixel(
            if sign {
                width
            } else {
                -1
            },
            t,
            true,
            (dim + 1) % 3,
            width,
        ) == Some(pixel_index(t, width - 1, sign, dim, width)),
        resolve_pixel(t, -1, sign, dim, width) == Some(
            pixel_index(sign_coord(sign, width), t, false, (dim + 1) % 3, width),
        ),
        resolve_pixel(
            if sign {
                width
            } else {
                -1
            },
            t,
            false,
            (dim + 1) % 3,
            width,
        ) == Some(pixel_index(t, 0, sign, dim, width)),
{
    if dim == 0 {
    } else if dim == 1 {
    } else {
    }
}

} // verus!
