use tracer_core::rebuild::{versions_changed, RebuildPolicy};

#[test]
fn starts_dirty_and_builds_once() {
    let mut policy = RebuildPolicy::new();
    assert!(policy.needs_rebuild());
    assert_eq!(policy.rebuild_count, 0);
    let rebuilt = policy.pre_draw_sync();
    assert!(rebuilt);
    assert_eq!(policy.rebuild_count, 1);
    assert!(!policy.needs_rebuild());
}

#[test]
fn unchanged_frames_reuse_the_cache() {
    let mut policy = RebuildPolicy::new();
    assert!(policy.pre_draw_sync());
    // Two consecutive frames with unchanged instance transforms: the
    // rebuild routine is not invoked and the counter stands still.
    policy.note_change(false);
    assert!(!policy.pre_draw_sync());
    assert_eq!(policy.rebuild_count, 1);
    policy.note_change(false);
    assert!(!policy.pre_draw_sync());
    assert_eq!(policy.rebuild_count, 1);
}

#[test]
fn changed_transform_rebuilds_exactly_once() {
    let mut policy = RebuildPolicy::new();
    assert!(policy.pre_draw_sync());
    assert_eq!(policy.rebuild_count, 1);
    // One instance's transform changes: the next frame rebuilds and the
    // counter increments exactly once for that frame.
    policy.note_change(true);
    assert!(policy.pre_draw_sync());
    assert_eq!(policy.rebuild_count, 2);
    // The frame after that is clean again.
    assert!(!policy.pre_draw_sync());
    assert_eq!(policy.rebuild_count, 2);
}

#[test]
fn additions_and_removals_mark_dirty() {
    let mut policy = RebuildPolicy::new();
    policy.pre_draw_sync();
    policy.mark_dirty();
    assert!(policy.needs_rebuild());
    assert!(policy.pre_draw_sync());
    assert_eq!(policy.rebuild_count, 2);
}

#[test]
fn version_counters_detect_changes() {
    let built = vec![3u64, 7, 1];
    assert!(!versions_changed(&vec![3, 7, 1], &built));
    // One instance's version advanced.
    assert!(versions_changed(&vec![3, 8, 1], &built));
    // An instance was added.
    assert!(versions_changed(&vec![3, 7, 1, 0], &built));
    // An instance was removed.
    assert!(versions_changed(&vec![3, 7], &built));
    // Empty scenes compare equal to themselves.
    assert!(!versions_changed(&Vec::new(), &Vec::new()));
}
