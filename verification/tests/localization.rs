use task_bot::localization::{get_string, Localization, LocalizationData};

fn fresh() -> Localization {
    Localization::new(LocalizationData {
        locale_path: "locale".to_string(),
        culture: "RU_ru".to_string(),
    })
}

fn reps(pairs: &[(&str, &str)]) -> Option<Vec<(String, String)>> {
    Some(pairs.iter().map(|(a, b)| (a.to_string(), b.to_string())).collect())
}

#[test]
fn locale_test() {
    let mut loc = fresh();
    let content = r#"
        test-string-1: test string output
        test-string-2: test output - {output}
        page-test-locale: locale test
        "#;
    assert!(loc.collect_locale(content).is_ok());

    assert_eq!(String::from("test"), get_string(&loc, "test", None));
    assert_ne!(String::from("test-string-1"), get_string(&loc, "test-string-1", None));
    assert_eq!(
        String::from("test output - test test"),
        get_string(&loc, "test-string-2", reps(&[("output", "test test")]))
    );
}

#[test]
fn missing_key_is_echoed_even_with_replacements() {
    let loc = fresh();
    assert_eq!(loc.get_string("no-such-key", reps(&[("x", "y")])), "no-such-key");
}

#[test]
fn later_locale_file_wins() {
    let mut loc = fresh();
    loc.collect_locale("greeting: hello\nbye: see you").unwrap();
    loc.collect_locale("greeting: привет").unwrap();
    assert_eq!(loc.get_string("greeting", None), "привет");
    assert_eq!(loc.get_string("bye", None), "see you");
}

#[test]
fn file_that_is_not_a_string_map_is_refused() {
    let mut loc = fresh();
    loc.collect_locale("k: v").unwrap();
    let err = loc.collect_locale("- just\n- a list").unwrap_err();
    assert_eq!(err.content, "- just\n- a list");
    assert_eq!(loc.get_string("k", None), "v");
}

#[test]
fn replacements_apply_in_order_and_unused_ones_are_harmless() {
    let mut loc = fresh();
    loc.collect_locale("msg: \"{a} and {b} and {a}\"").unwrap();
    assert_eq!(
        loc.get_string("msg", reps(&[("a", "{b}"), ("b", "2"), ("zzz", "unused")])),
        "2 and 2 and 2"
    );
    assert_eq!(loc.get_string("msg", None), "{a} and {b} and {a}");
}

#[test]
fn collect_all_forgets_every_text() {
    let mut loc = fresh();
    loc.collect_locale("k: v").unwrap();
    loc.collect_all();
    assert_eq!(loc.get_string("k", None), "k");
    assert_eq!(loc.culture, "RU_ru");
}
