use fluid_sim::dispatch::{bitonic_passes, sort_schedule, sort_stage_count, sort_workgroups, SortPass};
use fluid_sim::spawn::isqrt;

#[test]
fn stage_count_is_log_of_next_power_of_two() {
    assert_eq!(sort_stage_count(0), 0);
    assert_eq!(sort_stage_count(1), 0);
    assert_eq!(sort_stage_count(2), 1);
    assert_eq!(sort_stage_count(3), 2);
    assert_eq!(sort_stage_count(1024), 10);
    assert_eq!(sort_stage_count(1025), 11);
    assert_eq!(sort_stage_count(0x8000_0000), 31);
}

#[test]
fn sort_workgroups_per_256_padded_entries() {
    assert_eq!(sort_workgroups(0), 1);
    assert_eq!(sort_workgroups(100), 1);
    assert_eq!(sort_workgroups(256), 1);
    assert_eq!(sort_workgroups(257), 2);
    assert_eq!(sort_workgroups(1024), 4);
    assert_eq!(sort_workgroups(1000), 4);
}

fn pass(group_width: u32, group_height: u32, step_index: u32) -> SortPass {
    SortPass { group_width, group_height, step_index }
}

#[test]
fn three_stage_network() {
    assert_eq!(
        bitonic_passes(3),
        vec![
            pass(1, 1, 0),
            pass(2, 3, 0),
            pass(1, 1, 1),
            pass(4, 7, 0),
            pass(2, 3, 1),
            pass(1, 1, 2),
        ]
    );
}

#[test]
fn network_size_is_triangular() {
    for s in 0..=31u32 {
        let n = bitonic_passes(s).len() as u32;
        assert_eq!(n, s * (s + 1) / 2);
    }
}

#[test]
fn schedule_for_particles() {
    assert!(sort_schedule(1).is_empty());
    assert_eq!(sort_schedule(4), bitonic_passes(2));
    assert_eq!(sort_schedule(1024).len(), 55);
}

#[test]
fn isqrt_values() {
    assert_eq!(isqrt(0), 0);
    assert_eq!(isqrt(1), 1);
    assert_eq!(isqrt(3), 1);
    assert_eq!(isqrt(4), 2);
    assert_eq!(isqrt(1023), 31);
    assert_eq!(isqrt(1024), 32);
    assert_eq!(isqrt(usize::MAX), 4294967295);
}
