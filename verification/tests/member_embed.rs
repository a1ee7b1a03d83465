use task_bot::localization::{Localization, LocalizationData};
use task_bot::member::{ProjectMember, TaskHistory};
use task_bot::tag::TagsManager;
use task_bot::task::TaskManager;

fn s(x: &str) -> String {
    x.to_string()
}

#[test]
fn member_card_fields() {
    let mut loc = Localization::new(LocalizationData { locale_path: String::new(), culture: String::new() });
    loc.collect_locale("member-stat-embed-in-tasks-name: \"Working on ({num})\"\nmember-stat-embed-score-name: Score\nmember-stat-embed-title: \"Card of {member}\"").unwrap();
    let mut tasks = TaskManager::new();
    let tags = TagsManager::new();
    let a = tasks.new_task(s("alpha"), 555, s("t"), Some(Some(1)), &vec![], &tags, 1).unwrap();
    let b = tasks.new_task(s("alpha"), 556, s("u"), Some(Some(1)), &vec![], &tags, 1).unwrap();
    let mut m = ProjectMember::new(9);
    m.join_task(&s("alpha"), a);
    m.join_task(&s("alpha"), b);
    m.join_task(&s("alpha"), 77);
    m.add_done_task(&s("beta"), a, 10);
    m.add_custom_done_task(&s("beta"), TaskHistory::OldFormat(s("old one")));
    m.change_score(-3);
    m.add_note(4, 20, s("watch"));
    m.add_note(5, -1, s("again"));
    assert_eq!(m.embed_title(&loc, "Bob"), "Card of Bob");

    let fields = m.embed_fields(&tasks, &loc, false);
    let pairs: Vec<(String, String)> = fields.iter().map(|f| (f.name.clone(), f.value.clone())).collect();
    assert_eq!(
        pairs,
        vec![
            (s("Working on (1)"), s("**alpha (3):**\n\u{2560}\u{fe0e} <#555>\n\u{2560}\u{fe0e} <#556>\n")),
            (s("member-stat-embed-done-tasks-name"), s("**beta (2)**\n\u{2560}\u{fe0e} <t:10:D> <#555>\n\n\u{255a} old one\n")),
            (s("Score"), s("`-3`")),
            (s("member-stat-embed-all-time-score-name"), s("`0`")),
        ]
    );
    assert!(fields.iter().all(|f| !f.inline));

    let secret = m.embed_fields(&tasks, &loc, true);
    assert_eq!(secret.len(), 6);
    assert_eq!(secret[4].value, "\u{255a} **beta**: <t:10:R>\n");
    assert_eq!(secret[5].name, "member-stat-embed-notes-name");
    assert_eq!(secret[5].value, "\u{2560}\u{fe0e} <@4> <t:20:D>: watch\n\u{255a} <@5> <t:-1:D>: again\n");
}

#[test]
fn card_text_keeps_its_last_2000_characters() {
    let loc = Localization::new(LocalizationData { locale_path: String::new(), culture: String::new() });
    let tasks = TaskManager::new();
    let mut m = ProjectMember::new(1);
    let long = "x".repeat(2500);
    m.add_custom_mentor_task(&s("p"), TaskHistory::OldFormat(long));
    let fields = m.embed_fields(&tasks, &loc, false);
    assert_eq!(fields[0].value.chars().count(), 2000);
    assert!(fields[0].value.ends_with("x\n"));
}
