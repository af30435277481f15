use capture_pipeline::Pipeline;
use capture_pipeline::parse_manifest;

fn dispatched_names(p: &Pipeline) -> Vec<String> {
    let mut names = Vec::new();
    let mut i = 0;
    while i < p.dispatched_count() {
        names.push(p.dispatched_at(i));
        i += 1;
    }
    names
}

#[test]
fn running_iteration_polls_dispatches_and_stays_running() {
    let mut p = Pipeline::new();
    assert!(p.begin_iteration(false));
    let count = p.discover(&parse_manifest("seg0.ts\nseg1.ts\n"));
    assert_eq!(count, 2);
    assert_eq!(p.pending_at(0), "seg0.ts".to_string());
    assert_eq!(p.pending_at(1), "seg1.ts".to_string());
    let launched = p.dispatch_pending(&vec![true, true]);
    assert_eq!(launched, vec!["seg0.ts".to_string(), "seg1.ts".to_string()]);
    assert_eq!(p.in_flight_count(), 2);
    assert!(!p.is_flushed());
}

#[test]
fn same_name_is_never_dispatched_twice() {
    // The name seen in the first poll is not rediscovered by later polls,
    // so its upload is dispatched exactly once per pipeline lifetime.
    let mut p = Pipeline::new();
    assert!(p.begin_iteration(false));
    let count = p.discover(&parse_manifest("seg0.ts\n"));
    assert_eq!(count, 1);
    let launched = p.dispatch_pending(&vec![true]);
    assert_eq!(launched, vec!["seg0.ts".to_string()]);
    assert!(p.begin_iteration(false));
    let count = p.discover(&parse_manifest("seg0.ts\nseg1.ts\n"));
    assert_eq!(count, 1);
    let launched = p.dispatch_pending(&vec![true]);
    assert_eq!(launched, vec!["seg1.ts".to_string()]);
    assert_eq!(dispatched_names(&p), vec!["seg0.ts".to_string(), "seg1.ts".to_string()]);
}

#[test]
fn segment_without_file_is_skipped_for_good() {
    // The manifest may list a segment the encoder has not finished
    // writing; it is skipped, stays seen, and is not dispatched later.
    let mut p = Pipeline::new();
    p.discover(&parse_manifest("seg0.ts\n"));
    let launched = p.dispatch_pending(&vec![false]);
    assert!(launched.is_empty());
    assert_eq!(p.in_flight_count(), 0);
    let count = p.discover(&parse_manifest("seg0.ts\n"));
    assert_eq!(count, 0);
    assert_eq!(p.dispatched_count(), 0);
}

#[test]
fn reap_removes_only_completed_units() {
    let mut p = Pipeline::new();
    p.discover(&parse_manifest("seg0.ts\nseg1.ts\nseg2.ts\n"));
    p.dispatch_pending(&vec![true, true, true]);
    assert_eq!(p.in_flight_count(), 3);
    p.reap(&vec![true, false, true]);
    assert_eq!(p.in_flight_count(), 1);
    p.reap(&vec![true]);
    assert_eq!(p.in_flight_count(), 0);
}

#[test]
fn failed_upload_does_not_block_later_segments() {
    // An upload unit that fails merely completes; discovery and dispatch
    // of subsequent segments go on as before.
    let mut p = Pipeline::new();
    p.discover(&parse_manifest("seg0.ts\n"));
    p.dispatch_pending(&vec![true]);
    // The unit for seg0.ts completes with a failure: reaped like a success.
    p.reap(&vec![true]);
    assert_eq!(p.in_flight_count(), 0);
    let count = p.discover(&parse_manifest("seg0.ts\nseg1.ts\n"));
    assert_eq!(count, 1);
    let launched = p.dispatch_pending(&vec![true]);
    assert_eq!(launched, vec!["seg1.ts".to_string()]);
}

#[test]
fn shutdown_tick_still_runs_one_full_pass() {
    // Scenario: the shutdown signal is set, and the manifest gains
    // seg5.ts in the same tick; the final pass still dispatches it
    // before the pipeline reaches Flushed.
    let mut p = Pipeline::new();
    assert!(p.begin_iteration(false));
    p.discover(&parse_manifest("seg4.ts\n"));
    p.dispatch_pending(&vec![true]);
    p.reap(&vec![true]);
    // Stop is requested; the signal now reads true.
    let run_pass = p.begin_iteration(true);
    assert!(run_pass);
    let count = p.discover(&parse_manifest("seg4.ts\nseg5.ts\n"));
    assert_eq!(count, 1);
    let launched = p.dispatch_pending(&vec![true]);
    assert_eq!(launched, vec!["seg5.ts".to_string()]);
    p.reap(&vec![false]);
    assert_eq!(p.in_flight_count(), 1);
    // Next iteration: no further pass; the caller drains what is left.
    let run_pass = p.begin_iteration(true);
    assert!(!run_pass);
    p.reap(&vec![true]);
    assert_eq!(p.in_flight_count(), 0);
    p.finish();
    assert!(p.is_flushed());
    assert!(p.flush_signal());
    assert!(dispatched_names(&p).contains(&"seg5.ts".to_string()));
}

#[test]
fn flushed_pipeline_has_nothing_in_flight() {
    let mut p = Pipeline::new();
    assert!(p.begin_iteration(true));
    p.discover(&parse_manifest(""));
    p.dispatch_pending(&vec![]);
    assert!(!p.begin_iteration(true));
    p.finish();
    assert!(p.is_flushed());
    assert_eq!(p.in_flight_count(), 0);
    assert_eq!(p.pending_count(), 0);
}
