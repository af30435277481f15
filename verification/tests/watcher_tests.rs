use capture_pipeline::SegmentWatcher;
use capture_pipeline::parse_manifest;

#[test]
fn first_poll_discovers_then_second_poll_is_empty() {
    // Scenario: the manifest holds one segment. The first poll discovers
    // it; a second poll with no manifest change discovers nothing.
    let mut watcher = SegmentWatcher::new();
    let manifest = parse_manifest("seg0.ts\n");
    let first = watcher.poll(&manifest);
    assert_eq!(first, vec!["seg0.ts".to_string()]);
    let second = watcher.poll(&manifest);
    assert!(second.is_empty());
}

#[test]
fn poll_discovers_only_new_names() {
    let mut watcher = SegmentWatcher::new();
    let first = watcher.poll(&parse_manifest("seg0.ts\nseg1.ts\n"));
    assert_eq!(first, vec!["seg0.ts".to_string(), "seg1.ts".to_string()]);
    let second = watcher.poll(&parse_manifest("seg0.ts\nseg1.ts\nseg2.ts\n"));
    assert_eq!(second, vec!["seg2.ts".to_string()]);
}

#[test]
fn poll_of_empty_manifest_discovers_nothing() {
    let mut watcher = SegmentWatcher::new();
    let discovered = watcher.poll(&parse_manifest(""));
    assert!(discovered.is_empty());
}
