use std::collections::HashSet;

use precise_permissive_fov::{build_fov_set, field_of_view, Coord, PPFOVTile};

/// Reads a map drawn with `#` for obstacles; cells off the map are obstacles.
fn blocked_in(map: &[&str], c: Coord) -> bool {
    if c.x < 0 || c.y < 0 {
        return true;
    }
    match map.get(c.y as usize).and_then(|row| row.as_bytes().get(c.x as usize)) {
        Some(b'#') => true,
        Some(_) => false,
        None => true,
    }
}

fn fov(map: &[&str], sx: i32, sy: i32, radius: i32) -> Vec<Coord> {
    let width = map[0].len() as i32;
    let height = map.len() as i32;
    field_of_view(sx, sy, width, height, radius, |c: Coord| blocked_in(map, c))
}

fn as_set(cells: &[Coord]) -> HashSet<(i32, i32)> {
    cells.iter().map(|c| (c.x, c.y)).collect()
}

fn rect(x0: i32, y0: i32, x1: i32, y1: i32) -> HashSet<(i32, i32)> {
    let mut s = HashSet::new();
    for x in x0..=x1 {
        for y in y0..=y1 {
            s.insert((x, y));
        }
    }
    s
}

const OPEN5: [&str; 5] = [".....", ".....", ".....", ".....", "....."];

#[test]
fn origin_listed_first_and_once() {
    let v = fov(&OPEN5, 2, 3, 2);
    assert_eq!(v[0], Coord { x: 2, y: 3 });
    assert_eq!(v.len(), as_set(&v).len());
}

#[test]
fn radius_zero_sees_only_origin() {
    let v = fov(&OPEN5, 1, 4, 0);
    assert_eq!(v, vec![Coord { x: 1, y: 4 }]);
}

#[test]
fn origin_visible_even_inside_obstacle() {
    let map = ["...", ".#.", "..."];
    let v = fov(&map, 1, 1, 3);
    assert!(as_set(&v).contains(&(1, 1)));
}

#[test]
fn open_map_gives_chebyshev_square() {
    assert_eq!(as_set(&fov(&OPEN5, 2, 2, 1)), rect(1, 1, 3, 3));
    assert_eq!(as_set(&fov(&OPEN5, 2, 2, 2)), rect(0, 0, 4, 4));
}

#[test]
fn open_map_square_clipped_at_corner() {
    assert_eq!(as_set(&fov(&OPEN5, 0, 0, 3)), rect(0, 0, 3, 3));
    assert_eq!(as_set(&fov(&OPEN5, 4, 0, 2)), rect(2, 0, 4, 2));
    assert_eq!(as_set(&fov(&OPEN5, 3, 4, 100)), rect(0, 0, 4, 4));
}

#[test]
fn single_column_map_sees_only_origin() {
    let map = [".", ".", "."];
    assert_eq!(as_set(&fov(&map, 0, 0, 2)), rect(0, 0, 0, 0));
}

#[test]
fn adjacent_obstacle_hides_cell_behind_it_only() {
    let map = [".....", ".....", "...#.", ".....", "....."];
    let got = as_set(&fov(&map, 2, 2, 2));
    let mut want = rect(0, 0, 4, 4);
    want.remove(&(4, 2));
    assert_eq!(got, want);
    assert!(got.contains(&(3, 2)));
    assert!(got.contains(&(4, 1)));
    assert!(got.contains(&(4, 3)));
}

#[test]
fn column_with_two_obstacles() {
    let map = [".....", "#....", ".....", ".....", "#....", "....."];
    let got = as_set(&fov(&map, 0, 0, 5 + 6 + 1000));
    let mut want = rect(1, 0, 4, 5);
    want.insert((0, 0));
    want.insert((0, 1));
    assert_eq!(got, want);
    assert!(got.iter().all(|&(x, y)| x >= 0 && y >= 0));
}

#[test]
fn wall_hides_what_lies_behind_it() {
    let map = [".......", ".......", "..###..", ".......", "......."];
    let got = as_set(&fov(&map, 3, 0, 10));
    assert!(got.contains(&(3, 2)));
    assert!(!got.contains(&(3, 3)));
    assert!(!got.contains(&(3, 4)));
}

#[test]
fn visible_cells_stay_on_map() {
    let map = ["..#....", ".#...#.", ".......", "###..#.", "......."];
    for &(sx, sy) in &[(0, 0), (6, 4), (3, 2), (0, 4), (6, 0)] {
        for r in 0..9 {
            for c in fov(&map, sx, sy, r) {
                assert!(c.x >= 0 && c.x < 7 && c.y >= 0 && c.y < 5);
            }
        }
    }
}

#[test]
fn larger_radius_keeps_visible_cells() {
    let map = ["..#....", ".#...#.", ".......", "###..#.", "......."];
    for &(sx, sy) in &[(0, 0), (6, 4), (3, 2), (4, 1)] {
        for r in 0..9 {
            let small = as_set(&fov(&map, sx, sy, r));
            let large = as_set(&fov(&map, sx, sy, r + 1));
            assert!(small.is_subset(&large));
        }
    }
}

#[test]
fn same_inputs_same_result() {
    let map = ["..#....", ".#...#.", ".......", "###..#.", "......."];
    let a = fov(&map, 3, 2, 4);
    let b = fov(&map, 3, 2, 4);
    assert_eq!(a, b);
}

#[test]
fn tile_lookup_matches_predicate() {
    let map = ["..#....", ".#...#.", ".......", "###..#.", "......."];
    let get_tile = |c: Coord| {
        if blocked_in(&map, c) {
            PPFOVTile::Obstacle
        } else {
            PPFOVTile::Empty
        }
    };
    let a = build_fov_set(Coord { x: 3, y: 2 }, 7, 5, 4, get_tile);
    let b = fov(&map, 3, 2, 4);
    assert_eq!(as_set(&a), as_set(&b));
    assert_eq!(a[0], Coord::new(3, 2));
}
