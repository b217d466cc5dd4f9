use whatcable::watch::{output_changed, watch_frame, watch_step};

#[test]
fn first_report_is_shown() {
    assert!(output_changed(&None, "report"));
    let (last, show) = watch_step(None, "report".to_string());
    assert!(show);
    assert_eq!(last.as_deref(), Some("report"));
}

#[test]
fn same_report_is_shown_once() {
    let (last, show) = watch_step(None, "a".to_string());
    assert!(show);
    let (last, show) = watch_step(last, "a".to_string());
    assert!(!show);
    assert_eq!(last.as_deref(), Some("a"));
    let (last, show) = watch_step(last, "b".to_string());
    assert!(show);
    assert_eq!(last.as_deref(), Some("b"));
    assert!(!output_changed(&last, "b"));
}

#[test]
fn frames() {
    assert_eq!(watch_frame("{}", true, "ignored"), "{}\n");
    assert_eq!(
        watch_frame("=== port0 ===\n", false, "2024-01-01 00:00:00 UTC"),
        "\x1b[2J\x1b[Hwhatcable-linux --watch \u{b7} 2024-01-01 00:00:00 UTC\n\n=== port0 ===\n"
    );
}
