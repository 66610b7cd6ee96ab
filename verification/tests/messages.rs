use release_notifier::format_notification_message;

#[test]
fn test_message_wraps_entry_with_before_and_after_text() {
    let m = format_notification_message("New release!", "## [1.0.0] - 2022-06-16\n- First.", "Enjoy.");
    assert_eq!(m, "New release!\n\n## [1.0.0] - 2022-06-16\n- First.\n\nEnjoy.\n");
}

#[test]
fn test_message_with_empty_before_and_after() {
    let m = format_notification_message("", "entry text", "");
    assert_eq!(m, "\n\nentry text\n\n\n");
}
