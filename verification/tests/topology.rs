use gol_cube::topology::{cube_pixel_idx_in_bounds, cube_pixel_idx_out_bounds};

#[test]
fn index_formula_exact_values() {
    // dim_base + face_base + v * width + u with faces laid out by dim, then sign
    assert_eq!(cube_pixel_idx_in_bounds(0, 0, false, 0, 3), 0);
    assert_eq!(cube_pixel_idx_in_bounds(2, 0, false, 0, 3), 2);
    assert_eq!(cube_pixel_idx_in_bounds(0, 1, false, 0, 3), 3);
    assert_eq!(cube_pixel_idx_in_bounds(0, 0, true, 0, 3), 9);
    assert_eq!(cube_pixel_idx_in_bounds(0, 0, false, 1, 3), 18);
    assert_eq!(cube_pixel_idx_in_bounds(1, 2, true, 2, 3), 45 + 7);
}

#[test]
fn index_bijection_covers_buffer() {
    // every (dim, sign, v, u) tuple gets its own index, and all of 0..6*w^2 is hit
    let width = 3;
    let mut seen = vec![false; 6 * width * width];
    for dim in 0..3 {
        for sign in [false, true] {
            for v in 0..width {
                for u in 0..width {
                    let i = cube_pixel_idx_in_bounds(u, v, sign, dim, width);
                    assert!(i < seen.len());
                    assert!(!seen[i], "index {} hit twice", i);
                    seen[i] = true;
                }
            }
        }
    }
    assert!(seen.iter().all(|&b| b));
}

#[test]
fn interior_cells_resolve_on_same_face() {
    // width >= 2: all 8 neighbors of an interior cell stay on the face
    let width = 4;
    for dim in 0..3 {
        for sign in [false, true] {
            for u in 1..=2usize {
                for v in 1..=2usize {
                    for du in -1..=1isize {
                        for dv in -1..=1isize {
                            if du == 0 && dv == 0 {
                                continue;
                            }
                            let r = cube_pixel_idx_out_bounds(
                                u as isize + du,
                                v as isize + dv,
                                sign,
                                dim,
                                width,
                            );
                            let expected = cube_pixel_idx_in_bounds(
                                (u as isize + du) as usize,
                                (v as isize + dv) as usize,
                                sign,
                                dim,
                                width,
                            );
                            assert_eq!(r, Some(expected));
                        }
                    }
                }
            }
        }
    }
}

#[test]
fn every_cell_has_eight_resolved_or_fallback_neighbors() {
    // each of the 8 offsets either resolves or is the corner case; never a panic
    let width = 2;
    for dim in 0..3 {
        for sign in [false, true] {
            for u in 0..width {
                for v in 0..width {
                    let mut answers = 0;
                    for du in -1..=1isize {
                        for dv in -1..=1isize {
                            if du == 0 && dv == 0 {
                                continue;
                            }
                            let r = cube_pixel_idx_out_bounds(
                                u as isize + du,
                                v as isize + dv,
                                sign,
                                dim,
                                width,
                            );
                            if let Some(i) = r {
                                assert!(i < 6 * width * width);
                            }
                            answers += 1;
                        }
                    }
                    assert_eq!(answers, 8);
                }
            }
        }
    }
}

#[test]
fn width_one_every_offset_is_a_seam() {
    // the degenerate cube: diagonals have no owner, axis steps land on the
    // adjacent face's only cell
    for dim in 0..3 {
        for sign in [false, true] {
            for du in -1..=1isize {
                for dv in -1..=1isize {
                    if du == 0 && dv == 0 {
                        continue;
                    }
                    let r = cube_pixel_idx_out_bounds(du, dv, sign, dim, 1);
                    if du != 0 && dv != 0 {
                        assert_eq!(r, None);
                    } else if du != 0 {
                        let nd = (dim + 2) % 3;
                        assert_eq!(r, Some(nd * 2 + if du > 0 { 1 } else { 0 }));
                    } else {
                        let nd = (dim + 1) % 3;
                        assert_eq!(r, Some(nd * 2 + if dv > 0 { 1 } else { 0 }));
                    }
                }
            }
        }
    }
}

#[test]
fn seam_neighbor_relation_is_symmetric() {
    // crossing any edge of any face and querying back across the same edge
    // returns the boundary cell the first query started from
    let width = 4;
    for dim in 0..3 {
        for sign in [false, true] {
            let s = if sign { width - 1 } else { 0 };
            let back_coord: isize = if sign { width as isize } else { -1 };
            for t in 0..width {
                // u overflows high: lands on ((dim+2)%3, high) at (t, s)
                let fwd = cube_pixel_idx_out_bounds(width as isize, t as isize, sign, dim, width);
                assert_eq!(
                    fwd,
                    Some(cube_pixel_idx_in_bounds(t, s, true, (dim + 2) % 3, width))
                );
                let back =
                    cube_pixel_idx_out_bounds(t as isize, back_coord, true, (dim + 2) % 3, width);
                assert_eq!(
                    back,
                    Some(cube_pixel_idx_in_bounds(width - 1, t, sign, dim, width))
                );

                // u overflows low: lands on ((dim+2)%3, low) at (t, s)
                let fwd = cube_pixel_idx_out_bounds(-1, t as isize, sign, dim, width);
                assert_eq!(
                    fwd,
                    Some(cube_pixel_idx_in_bounds(t, s, false, (dim + 2) % 3, width))
                );
                let back =
                    cube_pixel_idx_out_bounds(t as isize, back_coord, false, (dim + 2) % 3, width);
                assert_eq!(back, Some(cube_pixel_idx_in_bounds(0, t, sign, dim, width)));

                // v overflows high: lands on ((dim+1)%3, high) at (s, t)
                let fwd = cube_pixel_idx_out_bounds(t as isize, width as isize, sign, dim, width);
                assert_eq!(
                    fwd,
                    Some(cube_pixel_idx_in_bounds(s, t, true, (dim + 1) % 3, width))
                );
                let back =
                    cube_pixel_idx_out_bounds(back_coord, t as isize, true, (dim + 1) % 3, width);
                assert_eq!(
                    back,
                    Some(cube_pixel_idx_in_bounds(t, width - 1, sign, dim, width))
                );

                // v overflows low: lands on ((dim+1)%3, low) at (s, t)
                let fwd = cube_pixel_idx_out_bounds(t as isize, -1, sign, dim, width);
                assert_eq!(
                    fwd,
                    Some(cube_pixel_idx_in_bounds(s, t, false, (dim + 1) % 3, width))
                );
                let back =
                    cube_pixel_idx_out_bounds(back_coord, t as isize, false, (dim + 1) % 3, width);
                assert_eq!(back, Some(cube_pixel_idx_in_bounds(t, 0, sign, dim, width)));
            }
        }
    }
}
