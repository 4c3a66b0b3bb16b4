use cells::spatial_grid::SpatialGrid;

#[test]
fn test_grid_creation() {
    let grid = SpatialGrid::new(8000000, 8000000, 100000);
    assert_eq!(grid.grid_width, 80);
    assert_eq!(grid.grid_height, 80);
    assert_eq!(grid.buckets.len(), 6400);
}

#[test]
fn test_insert_and_query() {
    let mut grid = SpatialGrid::new(1000000, 1000000, 100000);

    // Insert cells
    grid.insert(150000, 150000, 0);
    grid.insert(160000, 160000, 1);
    grid.insert(900000, 900000, 2);

    // Query near first cell
    let nearby = grid.query_nearby(155000, 155000, 50000);
    assert!(nearby.contains(&0));
    assert!(nearby.contains(&1));

    // Cell at (900, 900) should not be in nearby results for (155, 155)
    // unless it's in a neighboring bucket, but with 100-unit buckets it should be far
}

#[test]
fn test_wrapping_boundaries() {
    let mut grid = SpatialGrid::new(1000000, 1000000, 100000);

    // Insert cell near edge
    grid.insert(10000, 10000, 0);

    // Query from opposite edge (should wrap)
    let _nearby = grid.query_nearby(990000, 990000, 50000);
    // Due to wrapping, cells near (0,0) might be considered neighbors of (1000, 1000)
    // This tests the wrapping logic works correctly
    assert!(grid.buckets.len() > 0);
}

#[test]
fn test_query_wraps_across_edges() {
    let mut grid = SpatialGrid::new(1000000, 1000000, 100000);
    grid.insert(10000, 10000, 7);
    // The query ring from the far corner wraps onto the origin's bucket.
    let nearby = grid.query_nearby(990000, 990000, 50000);
    assert!(nearby.contains(&7));
}

#[test]
fn test_clear_empties_every_bucket() {
    let mut grid = SpatialGrid::new(1000000, 1000000, 100000);
    grid.insert(150000, 150000, 0);
    grid.insert(900000, 900000, 1);
    grid.clear();
    for bucket in &grid.buckets {
        assert!(bucket.is_empty());
    }
}

#[test]
fn test_insert_wraps_out_of_range_position() {
    let mut grid = SpatialGrid::new(1000000, 1000000, 100000);
    // A position mid-transition past the right edge lands in the wrapped bucket.
    grid.insert(1010000, 20000, 3);
    let nearby = grid.query_nearby(10000, 20000, 50000);
    assert!(nearby.contains(&3));
}
