use task_bot::command_manager::{report, CallKind, CallOutcome, CommandManager};
use task_bot::logger::LoggingLevels;

#[test]
fn handlers_are_found_by_id() {
    let mut man = CommandManager::new();
    man.add_command("save", 1);
    man.add_component("shop:next", 2);
    man.add_modal("task-changer:score", 3);
    man.add_command("save", 4);
    assert_eq!(man.call_command("save"), Some(4));
    assert_eq!(man.call_command("shop:next"), None);
    assert_eq!(man.call_component("shop:next"), Some(2));
    assert_eq!(man.call_modal("task-changer:score"), Some(3));
    assert_eq!(man.handler(CallKind::Modal, "nothing"), None);
}

#[test]
fn call_reports() {
    let (lvl, author, content) = report(CallKind::Command, "save", None);
    assert_eq!(lvl, LoggingLevels::Error);
    assert_eq!(author, "com_man.call_command");
    assert_eq!(content, "command manager cannot find call for command: save");
    let done = CallOutcome::Done { member: Some(("Alice".to_string(), 42)) };
    let (lvl, author, content) = report(CallKind::Component, "shop:next", Some(&done));
    assert_eq!(lvl, LoggingLevels::Debug);
    assert_eq!(author, "components.shop:next");
    assert_eq!(content, "component triggered by Alice (42)");
    let anon = CallOutcome::Done { member: None };
    assert_eq!(report(CallKind::Modal, "m", Some(&anon)).2, "modal triggered by Unknown (0)");
    let failed = CallOutcome::Failed("oops".to_string());
    let (lvl, author, content) = report(CallKind::Modal, "m", Some(&failed));
    assert_eq!(lvl, LoggingLevels::Error);
    assert_eq!(author, "modals.m");
    assert_eq!(content, "modal caused a panic with error: oops");
}

#[test]
fn registered_commands_without_handler_are_stale() {
    let mut man = CommandManager::new();
    man.add_command("save", 1);
    man.add_command("shop", 2);
    man.add_component("old", 3);
    assert!(man.contains_command("save"));
    assert!(!man.contains_command("old"));
    let registered = vec!["save".to_string(), "old".to_string(), "shop".to_string(), "gone".to_string()];
    assert_eq!(man.stale_commands(&registered), vec!["old".to_string(), "gone".to_string()]);
    assert!(man.stale_commands(&vec![]).is_empty());
}
