use capture_pipeline::parse_manifest;
use capture_pipeline::split_lines;

#[test]
fn split_empty_text_has_no_lines() {
    let lines = split_lines("");
    assert!(lines.is_empty());
}

#[test]
fn split_single_terminated_line() {
    let lines = split_lines("seg0.ts\n");
    assert_eq!(lines, vec!["seg0.ts".to_string()]);
}

#[test]
fn split_unterminated_last_line_is_kept() {
    let lines = split_lines("seg0.ts\nseg1.ts");
    assert_eq!(lines, vec!["seg0.ts".to_string(), "seg1.ts".to_string()]);
}

#[test]
fn split_crlf_line_endings_are_stripped() {
    let lines = split_lines("seg0.ts\r\nseg1.ts\r\n");
    assert_eq!(lines, vec!["seg0.ts".to_string(), "seg1.ts".to_string()]);
}

#[test]
fn split_keeps_empty_lines() {
    let lines = split_lines("a\n\nb\n");
    assert_eq!(lines, vec!["a".to_string(), "".to_string(), "b".to_string()]);
}

#[test]
fn parse_skips_empty_lines() {
    let segments = parse_manifest("a\n\nb\n\n");
    assert_eq!(segments, vec!["a".to_string(), "b".to_string()]);
}

#[test]
fn parse_lists_each_name_once() {
    let segments = parse_manifest("a\nb\na\nb\na\n");
    assert_eq!(segments, vec!["a".to_string(), "b".to_string()]);
}

#[test]
fn parse_empty_manifest_is_empty() {
    let segments = parse_manifest("");
    assert!(segments.is_empty());
    let segments = parse_manifest("\n\n\n");
    assert!(segments.is_empty());
}

#[test]
fn parse_tolerates_partially_written_final_line() {
    // A read racing the writer's append may see a prefix of the last line;
    // it is taken as it stands and the complete name is found next poll.
    let segments = parse_manifest("seg0.ts\nseg1");
    assert_eq!(segments, vec!["seg0.ts".to_string(), "seg1".to_string()]);
}
