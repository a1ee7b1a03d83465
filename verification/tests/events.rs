use task_bot::events::{subscribe_event, EventManager};

/// Callbacks of the test, behind the handles the manager hands back.
fn run(handle: u64, payload: &str, log: &mut Vec<String>) {
    match handle {
        0 => log.push(format!("Raised test func 1 - {}", payload)),
        1 => log.push(format!("Raised test func 2 - {}", payload)),
        _ => panic!("unknown handle"),
    }
}

#[test]
fn events_test() {
    const EVENT1: u64 = 1;
    const EVENT2: u64 = 2;
    let mut manager = EventManager::new();
    let mut log: Vec<String> = Vec::new();

    subscribe_event(&mut manager, EVENT1, 0);
    subscribe_event(&mut manager, EVENT2, 1);

    for h in manager.raise_event(EVENT1) {
        run(h, "test", &mut log);
    }
    for h in manager.raise_event(EVENT2) {
        run(h, &9u8.to_string(), &mut log);
    }
    assert_eq!(
        log,
        vec![
            String::from("Raised test func 1 - test"),
            String::from("Raised test func 2 - 9")
        ]
    );
}

#[test]
fn raise_without_subscribers_runs_nothing() {
    let manager = EventManager::new();
    assert!(manager.raise_event(7).is_empty());
}

#[test]
fn subscribers_run_in_subscription_order() {
    let mut manager = EventManager::new();
    manager.subscribe(3, 10);
    manager.subscribe(4, 20);
    manager.subscribe(3, 11);
    manager.subscribe_method(3, 12);
    assert_eq!(manager.raise_event(3), vec![10, 11, 12]);
    assert_eq!(manager.raise_event(4), vec![20]);
    assert!(manager.raise_event(5).is_empty());
}
