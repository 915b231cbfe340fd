use s2d2::geometry::{BoundingBox, Coordinate};

fn bbox(x0: i64, y0: i64, x1: i64, y1: i64) -> BoundingBox {
    BoundingBox::new(Coordinate::new(x0, y0), Coordinate::new(x1, y1))
}

#[test]
fn coordinate_min_and_max_are_componentwise() {
    let a = Coordinate::new(3, -7);
    let b = Coordinate::new(-1, 9);
    assert_eq!(a.min(&b), Coordinate::new(-1, -7));
    assert_eq!(a.max(&b), Coordinate::new(3, 9));
}

#[test]
fn zero_box_is_zero() {
    assert!(BoundingBox::zero().is_zero());
    assert!(!bbox(0, 0, 1, 0).is_zero());
}

#[test]
fn contains_includes_the_edges() {
    let b = bbox(0, 0, 10, 10);
    assert!(b.contains(&Coordinate::new(0, 0)));
    assert!(b.contains(&Coordinate::new(10, 10)));
    assert!(b.contains(&Coordinate::new(5, 10)));
    assert!(!b.contains(&Coordinate::new(11, 5)));
    assert!(!b.contains(&Coordinate::new(5, -1)));
}

#[test]
fn intersects_when_edges_touch() {
    let a = bbox(0, 0, 10, 10);
    assert!(a.intersects(&bbox(10, 10, 20, 20)));
    assert!(a.intersects(&bbox(2, 2, 3, 3)));
    assert!(!a.intersects(&bbox(11, 0, 20, 10)));
    assert!(!a.intersects(&bbox(0, 11, 10, 20)));
}

#[test]
fn compute_grid_takes_the_ceiling_square_root() {
    assert_eq!(BoundingBox::compute_grid(0), (0, 0));
    assert_eq!(BoundingBox::compute_grid(1), (1, 1));
    assert_eq!(BoundingBox::compute_grid(4), (2, 2));
    assert_eq!(BoundingBox::compute_grid(5), (3, 2));
    assert_eq!(BoundingBox::compute_grid(9), (3, 3));
    assert_eq!(BoundingBox::compute_grid(10), (4, 3));
    assert_eq!(BoundingBox::compute_grid(u64::MAX), (4294967296, 4294967296));
}

#[test]
fn divide_bound_box_into_four_quarters() {
    let cells = bbox(0, 0, 100, 100).divide_bound_box(4);
    assert_eq!(
        cells,
        vec![bbox(0, 0, 50, 50), bbox(50, 0, 100, 50), bbox(0, 50, 50, 100), bbox(50, 50, 100, 100)]
    );
}

#[test]
fn divide_bound_box_last_cells_reach_the_far_edge() {
    // 3 cells: a 2 x 2 grid, filled row by row; widths are rounded down.
    let cells = bbox(0, 0, 9, 9).divide_bound_box(3);
    assert_eq!(cells, vec![bbox(0, 0, 4, 4), bbox(4, 0, 9, 4), bbox(0, 4, 4, 9)]);
}

#[test]
fn divide_bound_box_of_nothing_is_empty() {
    assert!(bbox(0, 0, 9, 9).divide_bound_box(0).is_empty());
    assert_eq!(bbox(-5, -5, 5, 5).divide_bound_box(1), vec![bbox(-5, -5, 5, 5)]);
}

#[test]
fn full_grid_cells_cover_every_point() {
    let area = bbox(0, 0, 10, 7);
    for count in [1u64, 4, 6, 9] {
        let cells = area.divide_bound_box(count);
        for x in 0..=10 {
            for y in 0..=7 {
                let p = Coordinate::new(x, y);
                assert!(cells.iter().any(|c| c.contains(&p)), "count {count}: ({x}, {y}) is in no cell");
            }
        }
    }
}

#[test]
fn short_last_row_leaves_a_corner_uncovered() {
    // Three cells on a 2 x 2 grid: the bottom-right quarter belongs to none.
    let cells = bbox(0, 0, 9, 9).divide_bound_box(3);
    assert!(!cells.iter().any(|c| c.contains(&Coordinate::new(8, 8))));
}
