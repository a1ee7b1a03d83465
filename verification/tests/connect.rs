use task_bot::connect::{dates_from_links, file_dates, get_user_id, temp_file_path, user_id_url, validate_url, ConnectionError};

#[test]
fn urls_are_joined_and_escaped() {
    match validate_url("http://saves.example", "team/my save.yml") {
        Ok(u) => assert_eq!(u, "http:/saves.example/team/my%C2%A0save.yml"),
        Err(e) => panic!("{:?}", e),
    }
    assert_eq!(validate_url("base/", "///x").unwrap(), "base///x");
    match validate_url("http://x", "a/../b") {
        Err(ConnectionError::NotAllowedUrl(m)) => assert_eq!(m, "\"..\" in path are not allowed"),
        other => panic!("{:?}", other),
    }
    assert_eq!(temp_file_path("dir/sub/file.yml"), "temp/file.yml");
    assert_eq!(temp_file_path("plain"), "temp/plain");
}

#[test]
fn connect_test() {
    assert_eq!(user_id_url("https://api.example/find?", "M0ta"), "https://api.example/find?name=M0ta");
    assert_eq!(get_user_id("{\"error\":\"user not found\"}"), "Not Found".to_string());
    assert_ne!(get_user_id("{\"name\":\"M0ta\",\"userId\":\"12345\"}"), "Not Found".to_string());
    assert_eq!(get_user_id("{\"name\":\"M0ta\",\"userId\":12345}"), "12345");
}

#[test]
fn listing_dates() {
    let html = "<html><body><pre><a href=\"../\">../</a>\n<a href=\"a.yml\">a.yml</a>   01-Jan-2024 10:00    1234\n<a href=\"b.yml\">b.yml</a>   02-Feb-2024 11:30    99\n</pre></body></html>";
    let dates = file_dates(html);
    assert_eq!(dates.get(&"a.yml".to_string()), Some(&"01-Jan-2024 10:00".to_string()));
    assert_eq!(dates.get(&"b.yml".to_string()), Some(&"02-Feb-2024 11:30".to_string()));
    assert_eq!(dates.get(&"../".to_string()), Some(&String::new()));
    let links = vec![
        (Some("x".to_string()), Some("  1  2".to_string())),
        (None, Some("ignored".to_string())),
        (Some("y".to_string()), None),
        (Some("x".to_string()), Some(" later ".to_string())),
    ];
    let d = dates_from_links(&links);
    assert_eq!(d.get(&"x".to_string()), Some(&"later".to_string()));
    assert!(d.get(&"y".to_string()).is_none());
    assert_eq!(d.len(), 1);
}
