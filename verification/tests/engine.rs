//! End-to-end checks of the frozen field index engine: build/load round
//! trips, soft-delete semantics, counts, and flush durability.

use field_index::index::{Directory, MmapMapIndex};
use field_index::OperationError;

fn b(s: &str) -> Vec<u8> {
    s.as_bytes().to_vec()
}

/// Forward map `[[], ["a","b"], ["a"]]`, inverted map `{"a": [1,2], "b": [1]}`.
fn sample_maps() -> (Vec<Vec<Vec<u8>>>, Vec<(Vec<u8>, Vec<u32>)>) {
    let forward = vec![vec![], vec![b("a"), b("b")], vec![b("a")]];
    let inverted = vec![(b("a"), vec![1u32, 2u32]), (b("b"), vec![1u32])];
    (forward, inverted)
}

fn build_sample(dir: &mut Directory) -> MmapMapIndex {
    let (forward, inverted) = sample_maps();
    MmapMapIndex::build(dir, forward, inverted).unwrap()
}

#[test]
fn scenario_counts_after_build() {
    let mut dir = Directory::empty();
    let ix = build_sample(&mut dir);
    // point 0 has no values and is pre-marked deleted
    assert_eq!(ix.get_indexed_points(), 2);
    assert_eq!(ix.get_values_count(), 3);
    assert_eq!(ix.get_unique_values_count(), 2);
    assert_eq!(ix.get_count_for_value(b"a"), Some(2));
    assert_eq!(ix.get_count_for_value(b"b"), Some(1));
    assert_eq!(ix.get_count_for_value(b"c"), None);
}

#[test]
fn round_trip_matches_source_maps() {
    let mut dir = Directory::empty();
    let built = build_sample(&mut dir);
    drop(built);
    let ix = MmapMapIndex::load(&dir).unwrap();
    assert_eq!(ix.get_values(0), None);
    assert_eq!(ix.get_values(1), Some(&vec![b("a"), b("b")]));
    assert_eq!(ix.get_values(2), Some(&vec![b("a")]));
    assert_eq!(ix.values_count(1), Some(2));
    assert_eq!(ix.values_count(2), Some(1));
    assert_eq!(ix.get_iterator(b"a"), vec![1u32, 2u32]);
    assert_eq!(ix.get_iterator(b"b"), vec![1u32]);
    assert_eq!(ix.get_iterator(b"c"), Vec::<u32>::new());
    assert_eq!(ix.get_count_for_value(b"a"), Some(2));
    assert_eq!(ix.get_unique_values_count(), 2);
    assert_eq!(ix.get_values_count(), 3);
}

#[test]
fn deletion_is_monotonic_and_idempotent() {
    let mut dir = Directory::empty();
    let mut ix = build_sample(&mut dir);
    assert!(ix.get_values(1).is_some());
    ix.remove_point(1);
    assert_eq!(ix.get_values(1), None);
    assert_eq!(ix.values_count(1), None);
    let live = ix.get_indexed_points();
    ix.remove_point(1);
    assert_eq!(ix.get_indexed_points(), live);
    assert_eq!(ix.get_values(1), None);
}

#[test]
fn deleted_count_invariant_holds() {
    let mut dir = Directory::empty();
    let mut ix = build_sample(&mut dir);
    let total_forward = 3usize;
    assert_eq!(ix.get_indexed_points(), total_forward - ix.deleted_count);
    ix.remove_point(2);
    assert_eq!(ix.get_indexed_points(), total_forward - ix.deleted_count);
    ix.remove_point(2);
    assert_eq!(ix.get_indexed_points(), total_forward - ix.deleted_count);
    ix.remove_point(1);
    assert_eq!(ix.get_indexed_points(), total_forward - ix.deleted_count);
}

#[test]
fn historical_count_is_stable_under_removals() {
    let mut dir = Directory::empty();
    let mut ix = build_sample(&mut dir);
    assert_eq!(ix.get_values_count(), 3);
    ix.remove_point(1);
    ix.remove_point(2);
    ix.remove_point(1);
    assert_eq!(ix.get_values_count(), 3);
}

#[test]
fn out_of_range_points_read_absent() {
    let mut dir = Directory::empty();
    let mut ix = build_sample(&mut dir);
    assert_eq!(ix.get_values(3), None);
    assert_eq!(ix.get_values(64), None);
    assert_eq!(ix.values_count(1000), None);
    assert!(!ix.check_values_any(1000, |_| true));
    // removing an unknown point must not disturb the live count, whether the
    // index falls inside the flag file's padding (3 points pad to 64 bits)
    // or past the file altogether
    let live = ix.get_indexed_points();
    ix.remove_point(3);
    assert_eq!(ix.get_indexed_points(), live);
    ix.remove_point(10);
    assert_eq!(ix.get_indexed_points(), live);
    ix.remove_point(100000);
    assert_eq!(ix.get_indexed_points(), live);
    assert_eq!(ix.deleted_count, 1); // still only the build-time empty point
}

#[test]
fn flush_persists_deletions() {
    let mut dir = Directory::empty();
    let mut ix = build_sample(&mut dir);
    ix.remove_point(2);
    ix.flusher(&mut dir);
    let reloaded = MmapMapIndex::load(&dir).unwrap();
    assert_eq!(reloaded.get_values(2), None);
    assert_eq!(reloaded.get_values(1), Some(&vec![b("a"), b("b")]));
    assert_eq!(reloaded.get_indexed_points(), 1);
}

#[test]
fn unflushed_deletions_are_lost_on_reload() {
    let mut dir = Directory::empty();
    let mut ix = build_sample(&mut dir);
    ix.remove_point(2);
    // no flush: the directory still holds the build-time flags
    let reloaded = MmapMapIndex::load(&dir).unwrap();
    assert_eq!(reloaded.get_values(2), Some(&vec![b("a")]));
    assert_eq!(reloaded.get_indexed_points(), 2);
}

#[test]
fn check_values_any_honors_deletion_and_predicate() {
    let mut dir = Directory::empty();
    let mut ix = build_sample(&mut dir);
    assert!(ix.check_values_any(1, |v| v.as_slice() == b"b"));
    assert!(!ix.check_values_any(1, |v| v.as_slice() == b"z"));
    assert!(!ix.check_values_any(0, |_| true)); // empty point is pre-deleted
    ix.remove_point(1);
    assert!(!ix.check_values_any(1, |_| true));
}

#[test]
fn value_scans_return_storage_order() {
    let mut dir = Directory::empty();
    let ix = build_sample(&mut dir);
    assert_eq!(ix.iter_values(), vec![b("a"), b("b")]);
    assert_eq!(ix.iter_counts_per_value(), vec![(b("a"), 2usize), (b("b"), 1usize)]);
    assert_eq!(
        ix.iter_values_map(),
        vec![(b("a"), vec![1u32, 2u32]), (b("b"), vec![1u32])]
    );
}

#[test]
fn load_missing_file_is_not_found() {
    let mut dir = Directory::empty();
    assert_eq!(MmapMapIndex::load(&dir).unwrap_err(), OperationError::NotFound);
    build_sample(&mut dir);
    dir.deleted = None;
    assert_eq!(MmapMapIndex::load(&dir).unwrap_err(), OperationError::NotFound);
}

#[test]
fn load_malformed_file_is_format_error() {
    let mut dir = Directory::empty();
    build_sample(&mut dir);
    dir.config = Some(b"{\"something_else\":3}".to_vec());
    assert_eq!(MmapMapIndex::load(&dir).unwrap_err(), OperationError::Format);

    let mut dir2 = Directory::empty();
    build_sample(&mut dir2);
    let truncated: Vec<u8> = dir2.values_to_points.clone().unwrap()[..5].to_vec();
    dir2.values_to_points = Some(truncated);
    assert_eq!(MmapMapIndex::load(&dir2).unwrap_err(), OperationError::Format);
}

#[test]
fn files_lists_every_owned_file_and_clear_removes_them() {
    let mut dir = Directory::empty();
    let ix = build_sample(&mut dir);
    assert!(dir.config.is_some());
    assert!(dir.values_to_points.is_some());
    assert!(dir.point_to_values.is_some());
    assert!(dir.deleted.is_some());
    let files = ix.files();
    assert_eq!(
        files,
        vec![
            "values_to_points.bin",
            "deleted.bin",
            "mmap_field_index_config.json",
            "point_to_values.bin"
        ]
    );
    ix.clear(&mut dir).unwrap();
    assert!(dir.config.is_none());
    assert!(dir.values_to_points.is_none());
    assert!(dir.point_to_values.is_none());
    assert!(dir.deleted.is_none());
    assert_eq!(MmapMapIndex::load(&dir).unwrap_err(), OperationError::NotFound);
}

#[test]
fn empty_maps_build_an_empty_index() {
    let mut dir = Directory::empty();
    let ix = MmapMapIndex::build(&mut dir, vec![], vec![]).unwrap();
    assert_eq!(ix.get_indexed_points(), 0);
    assert_eq!(ix.get_values_count(), 0);
    assert_eq!(ix.get_unique_values_count(), 0);
    assert_eq!(ix.get_values(0), None);
}

#[test]
fn deleted_file_is_padded_to_64_bit_words() {
    let mut dir = Directory::empty();
    build_sample(&mut dir);
    // 3 points round up to one 64-bit word
    assert_eq!(dir.deleted.as_ref().unwrap().len(), 8);
    let mut dir2 = Directory::empty();
    let forward: Vec<Vec<Vec<u8>>> = (0..65).map(|_| vec![b("x")]).collect();
    MmapMapIndex::build(&mut dir2, forward, vec![(b("x"), (0..65u32).collect())]).unwrap();
    assert_eq!(dir2.deleted.as_ref().unwrap().len(), 16);
}
