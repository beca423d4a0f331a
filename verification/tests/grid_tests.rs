use fluid_sim::grid::{hash_cell, key_from_hash};
use fluid_sim::lookup::{select_in_radius, SpatialLookup};

#[test]
fn hash_of_origin_is_zero() {
    assert_eq!(hash_cell(0, 0), 0);
}

#[test]
fn hash_weights_x_by_101_and_y_by_307() {
    assert_eq!(hash_cell(1, 0), 101);
    assert_eq!(hash_cell(0, 1), 307);
    assert_eq!(hash_cell(2, 3), 1123);
    assert_eq!(hash_cell(-5, 7), 1644);
}

#[test]
fn hash_of_negative_cells_wraps() {
    assert_eq!(hash_cell(-1, 0), 18446744073709551515);
    assert_eq!(hash_cell(-1, -1), 18446744073709551208);
    assert_eq!(hash_cell(i32::MIN, i32::MAX), 442381631181);
    assert_eq!(hash_cell(i32::MAX, i32::MAX), 876173327976);
}

#[test]
fn key_is_hash_modulo_particle_count() {
    assert_eq!(key_from_hash(1123, 10), 3);
    assert_eq!(key_from_hash(9, 10), 9);
    assert_eq!(key_from_hash(usize::MAX, 1), 0);
}

fn built(hashes: Vec<usize>) -> SpatialLookup {
    let mut l = SpatialLookup::new();
    l.rebuild(&hashes);
    l
}

#[test]
fn rebuild_orders_by_key_then_index() {
    // keys: 5 % 4 = 1, 3, 1, 0
    let l = built(vec![5, 3, 5, 0]);
    assert_eq!(l.spatial_lookup(), &vec![(3, 0), (0, 1), (2, 1), (1, 3)]);
    assert_eq!(l.start_indices(), &vec![0, 1, usize::MAX, 3]);
    assert_eq!(l.len(), 4);
}

#[test]
fn rebuild_keeps_equal_keys_in_particle_order() {
    let l = built(vec![7, 7, 7]);
    // every particle in key 1
    assert_eq!(l.spatial_lookup(), &vec![(0, 1), (1, 1), (2, 1)]);
    assert_eq!(l.start_indices(), &vec![usize::MAX, 0, usize::MAX]);
}

#[test]
fn rebuild_of_no_particles_is_empty() {
    let l = built(vec![]);
    assert_eq!(l.len(), 0);
    assert!(l.spatial_lookup().is_empty());
    assert!(l.start_indices().is_empty());
}

#[test]
fn cell_range_covers_the_run_of_the_key() {
    let l = built(vec![5, 3, 5, 0]);
    assert_eq!(l.cell_range(1), (1, 3));
    assert_eq!(l.cell_range(9), (1, 3));
    assert_eq!(l.cell_range(0), (0, 1));
    assert_eq!(l.cell_range(3), (3, 4));
    let (a, b) = l.cell_range(2);
    assert_eq!(a, b);
}

#[test]
fn candidates_visit_cells_in_query_order() {
    let l = built(vec![5, 3, 5, 0]);
    assert_eq!(
        l.neighbour_candidates(&vec![3, 1, 2]),
        vec![(1, 3), (0, 1), (2, 1)]
    );
}

#[test]
fn candidates_repeat_a_cell_queried_twice() {
    let l = built(vec![5, 3, 5, 0]);
    assert_eq!(
        l.neighbour_candidates(&vec![4, 0]),
        vec![(3, 0), (3, 0)]
    );
}

#[test]
fn candidates_of_empty_lookup_are_empty() {
    let l = SpatialLookup::new();
    assert!(l.neighbour_candidates(&vec![0, 1, 2]).is_empty());
}

#[test]
fn query_finds_exactly_the_particles_of_the_queried_keys() {
    let hashes = vec![10, 11, 12, 13, 14, 15, 16, 17];
    let l = built(hashes.clone());
    let found = l.neighbour_candidates(&vec![2, 5]);
    for (i, h) in hashes.iter().enumerate() {
        let key = h % hashes.len();
        let expected = key == 2 || key == 5;
        assert_eq!(found.contains(&(i, key)), expected);
    }
    assert_eq!(found.len(), 2);
}

#[test]
fn resized_empty_lookup_finds_nothing() {
    let mut l = SpatialLookup::new();
    l.resize(3);
    assert_eq!(l.spatial_lookup(), &vec![(0, 0), (0, 0), (0, 0)]);
    assert_eq!(l.start_indices(), &vec![usize::MAX; 3]);
    assert!(l.starts_in_bounds(&vec![0, 1, 2]));
    assert!(l.neighbour_candidates(&vec![0, 1, 2]).is_empty());
}

#[test]
fn resize_keeps_existing_entries_when_growing() {
    let mut l = built(vec![5, 3, 5, 0]);
    l.resize(6);
    assert_eq!(
        l.spatial_lookup(),
        &vec![(3, 0), (0, 1), (2, 1), (1, 3), (0, 0), (0, 0)]
    );
    assert_eq!(l.start_indices(), &vec![0, 1, usize::MAX, 3, usize::MAX, usize::MAX]);
}

#[test]
fn resize_cuts_when_shrinking() {
    let mut l = built(vec![5, 3, 5, 0]);
    l.resize(2);
    assert_eq!(l.spatial_lookup(), &vec![(3, 0), (0, 1)]);
    assert_eq!(l.start_indices(), &vec![0, 1]);
    // key 1 starts at 1 and runs to the end
    assert_eq!(l.neighbour_candidates(&vec![1]), vec![(0, 1)]);
}

#[test]
fn start_beyond_the_end_after_shrinking_is_reported() {
    // keys 0, 0, 0, 1: entries (0,0), (1,0), (2,0), (3,1); key 1 starts at 3
    let mut l = built(vec![0, 0, 0, 1]);
    assert_eq!(l.start_indices(), &vec![0, 3, usize::MAX, usize::MAX]);
    l.resize(2);
    assert_eq!(l.start_indices(), &vec![0, 3]);
    assert!(l.starts_in_bounds(&vec![0]));
    assert!(!l.starts_in_bounds(&vec![0, 1]));
}

#[test]
fn start_at_the_end_reads_an_empty_run() {
    // keys 0, 0, 2: entries (0,0), (1,0), (2,2); key 2 starts at 2
    let mut l = built(vec![0, 0, 2]);
    assert_eq!(l.start_indices(), &vec![0, usize::MAX, 2]);
    l.resize(2);
    l.resize(3);
    assert_eq!(l.start_indices(), &vec![0, usize::MAX, usize::MAX]);
    let mut l = built(vec![0, 0, 1]);
    // key 1 starts at 2; cut to 2 entries: key 1 (hash 1) starts at the end
    l.resize(2);
    assert!(l.starts_in_bounds(&vec![1]));
    assert!(l.neighbour_candidates(&vec![1]).is_empty());
}

#[test]
fn clear_forgets_particles() {
    let mut l = built(vec![1, 2]);
    l.clear();
    assert_eq!(l.len(), 0);
}

#[test]
fn select_in_radius_counts_discarded() {
    let c = vec![(0, 1), (4, 1), (2, 3), (7, 3)];
    let (discarded, kept) = select_in_radius(&c, &vec![true, false, false, true]);
    assert_eq!(discarded, 2);
    assert_eq!(kept, vec![(0, 1), (7, 3)]);
}

#[test]
fn select_in_radius_of_nothing() {
    let (discarded, kept) = select_in_radius(&vec![], &vec![]);
    assert_eq!(discarded, 0);
    assert!(kept.is_empty());
}
