use gol_cube::{cube_pixel_idx_in_bounds, step, GolCube};

fn set(cube: &mut GolCube, u: usize, v: usize, sign: bool, dim: usize, val: bool) {
    let i = cube_pixel_idx_in_bounds(u, v, sign, dim, cube.width);
    cube.data[i] = val;
}

fn get(cube: &GolCube, u: usize, v: usize, sign: bool, dim: usize) -> bool {
    cube.data[cube_pixel_idx_in_bounds(u, v, sign, dim, cube.width)]
}

#[test]
fn new_cube_is_all_dead_and_sized() {
    let cube = GolCube::new(4);
    assert_eq!(cube.width, 4);
    assert_eq!(cube.data.len(), 6 * 4 * 4);
    assert!(cube.data.iter().all(|&c| !c));
}

#[test]
fn lone_live_cell_dies() {
    let mut front = GolCube::new(5);
    set(&mut front, 2, 2, false, 0, true);
    let mut back = GolCube::new(5);
    step(&front, &mut back, false);
    assert!(back.data.iter().all(|&c| !c));
}

#[test]
fn block_is_still_life() {
    // each live cell has exactly 3 live neighbors and survives; no dead cell
    // sees exactly 3
    let mut front = GolCube::new(6);
    for (u, v) in [(2, 2), (3, 2), (2, 3), (3, 3)] {
        set(&mut front, u, v, false, 0, true);
    }
    let mut back = GolCube::new(6);
    step(&front, &mut back, false);
    assert_eq!(back.data, front.data);
}

#[test]
fn blinker_oscillates() {
    // a live cell with 2 neighbors survives, dead cells with 3 are born,
    // live cells with 1 die
    let mut front = GolCube::new(7);
    for u in 2..5 {
        set(&mut front, u, 3, false, 1, true);
    }
    let mut back = GolCube::new(7);
    step(&front, &mut back, false);
    let mut expected = GolCube::new(7);
    for v in 2..5 {
        set(&mut expected, 3, v, false, 1, true);
    }
    assert_eq!(back.data, expected.data);
    let mut third = GolCube::new(7);
    step(&back, &mut third, false);
    assert_eq!(third.data, front.data);
}

#[test]
fn all_dead_cube_stays_all_dead() {
    let front = GolCube::new(5);
    let mut back = GolCube::new(5);
    step(&front, &mut back, false);
    assert!(back.data.iter().all(|&c| !c));
}

#[test]
fn glider_reproduces_planar_life_away_from_seams() {
    // a glider in a face's interior advances one cell down-right every four
    // generations, exactly as on an unbounded plane
    let glider = [(4usize, 3usize), (5, 4), (3, 5), (4, 5), (5, 5)];
    let mut front = GolCube::new(10);
    for &(u, v) in &glider {
        set(&mut front, u, v, false, 2, true);
    }
    let mut back = GolCube::new(10);
    for _ in 0..4 {
        step(&front, &mut back, false);
        std::mem::swap(&mut front, &mut back);
    }
    let mut expected = GolCube::new(10);
    for &(u, v) in &glider {
        set(&mut expected, u + 1, v + 1, false, 2, true);
    }
    assert_eq!(front.data, expected.data);
}

#[test]
fn one_live_face_steps_to_exact_buffer() {
    // width 3, the (dim 0, low) face entirely alive, the rest dead, corner
    // fallback false; checked cell by cell against a hand computation
    let mut front = GolCube::new(3);
    for i in 0..9 {
        front.data[i] = true;
    }
    let mut back = GolCube::new(3);
    step(&front, &mut back, false);

    let mut expected = vec![false; 54];
    // on the live face the corners count 3 live neighbors and survive; edge
    // centers count 5 and the center counts 8, so they die
    for i in [0, 2, 6, 8] {
        expected[i] = true;
    }
    // on each of the four adjacent faces, the cell whose whole off-face row
    // lies on the live face counts 3 and is born; its corner neighbors only
    // reach 2 of them
    expected[18 + 3] = true; // face (1, low), cell (0, 1)
    expected[27 + 3] = true; // face (1, high), cell (0, 1)
    expected[36 + 1] = true; // face (2, low), cell (1, 0)
    expected[45 + 1] = true; // face (2, high), cell (1, 0)
    assert_eq!(back.data, expected);
}

#[test]
fn corner_fallback_feeds_corner_cells() {
    // on a width-1 cube every cell has 4 corner-diagonal neighbors; with the
    // fallback true and the four axis neighbors dead, a dead cell stays dead
    // (count 4) and with one live axis neighbor reaches 5, never 3
    let front = GolCube::new(1);
    let mut back = GolCube::new(1);
    step(&front, &mut back, true);
    assert!(back.data.iter().all(|&c| !c));
}

#[test]
fn width_one_cube_steps_without_panicking() {
    // all six cells alive: each cell sees its 4 axis neighbors alive and 4
    // corner fallbacks; with fallback false the count is 4 and all die
    let mut front = GolCube::new(1);
    for c in front.data.iter_mut() {
        *c = true;
    }
    let mut back = GolCube::new(1);
    step(&front, &mut back, false);
    assert!(back.data.iter().all(|&c| !c));

    // with fallback true the count is 8 and all die as well
    let mut back2 = GolCube::new(1);
    step(&front, &mut back2, true);
    assert!(back2.data.iter().all(|&c| !c));
}

#[test]
fn step_reads_only_current_and_overwrites_next() {
    // stale contents of the next buffer do not leak into the result
    let mut front = GolCube::new(4);
    set(&mut front, 1, 1, false, 0, true);
    let mut back = GolCube::new(4);
    for c in back.data.iter_mut() {
        *c = true;
    }
    step(&front, &mut back, false);
    let mut back_clean = GolCube::new(4);
    step(&front, &mut back_clean, false);
    assert_eq!(back.data, back_clean.data);
    assert!(!get(&back, 1, 1, false, 0));
}
