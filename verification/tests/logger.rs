use task_bot::logger::{
    file_name, format_time, notify_place, notify_text, prefix_of, unbold, Logger, LoggingConfig, LoggingLevels,
    NotifyPlace,
};

fn logger(low: Option<bool>) -> Logger {
    Logger::new(
        LoggingConfig { low, medium: None, high: Some(true), debug: Some(false), error: None },
        "[%prefix%] %time% %author%: %content%".to_string(),
    )
}

#[test]
fn entries_follow_the_template() {
    let l = logger(None);
    assert_eq!(
        l.entry_text(LoggingLevels::Medium, "2024-1-2, 3:4:5", "task.close", "done"),
        "[**Medium**] 2024-1-2, 3:4:5 task.close: done"
    );
    assert_eq!(prefix_of(LoggingLevels::Low), "Low");
    assert_eq!(prefix_of(LoggingLevels::Error), "**Error**");
}

#[test]
fn plan_posts_only_enabled_levels_and_unbolds_the_file_line() {
    let l = logger(Some(false));
    let p = l.plan(LoggingLevels::Low, "t", "a", "c");
    assert!(p.channel_text.is_none());
    assert_eq!(p.file_text, "[Low] t a: c");
    assert!(!p.is_error);
    let e = l.plan(LoggingLevels::Error, "t", "a", "**bad**");
    assert_eq!(e.channel_text, Some("[**Error**] t a: **bad**".to_string()));
    assert_eq!(e.file_text, "[Error] t a: bad");
    assert!(e.is_error);
    assert!(l.enabled(LoggingLevels::High));
    assert!(!l.enabled(LoggingLevels::Debug));
    assert!(l.enabled(LoggingLevels::Medium));
}

#[test]
fn failure_line_and_helpers() {
    let l = logger(None);
    assert_eq!(l.delivery_failure_text("t", "**boom**"), "[Error] t logger.log: boom");
    assert_eq!(format_time(2024, 3, 7, 9, 5, 0), "2024-3-7, 9:5:0");
    assert_eq!(file_name(7, 3, 2024), "logs/7-3-2024.txt");
    assert_eq!(notify_text("Notice", "t", "me", "hi"), "**[Notice]** (t) <me>: hi");
    assert_eq!(unbold("**a** b **"), "a b ");
}

#[test]
fn notify_places_by_name() {
    assert_eq!(notify_place("thread"), Some(NotifyPlace::Thread));
    assert_eq!(notify_place("channel"), Some(NotifyPlace::Channel));
    assert_eq!(notify_place("forum"), None);
    assert_eq!(notify_place(""), None);
}
