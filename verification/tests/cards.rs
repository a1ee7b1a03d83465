use task_bot::localization::{Localization, LocalizationData};
use task_bot::maps::NameMap;
use task_bot::member::ProjectMember;
use task_bot::project::ProjectManager;
use task_bot::shop::{Page, ShopManager};
use task_bot::tag::{TageTypes, TagsManager, TaskTag};
use task_bot::task::{Task, TaskManager};

fn s(x: &str) -> String {
    x.to_string()
}

fn loc() -> Localization {
    let mut l = Localization::new(LocalizationData { locale_path: String::new(), culture: String::new() });
    l.collect_locale("task-embed-title: \"Task {task}\"\ntask-embed-members-name: \"Members {current}/{max}\"\ntask-embed-no-last-save: none\ntag-types-inwork: In work\nproject-embed-associated-roles-name: \"Roles ({num})\"\nshop-embed-item: \"Item {num}\"\nmember-project-stat-no-last-activity: never").unwrap();
    l
}

fn pairs(fields: &[task_bot::member_embed::EmbedField]) -> Vec<(String, String)> {
    fields.iter().map(|f| (f.name.clone(), f.value.clone())).collect()
}

#[test]
fn task_card() {
    let l = loc();
    let tags = TagsManager::new();
    let mut t = Task::new(3, s("alpha"), 500, s("Fix it"), Some(100), &vec![], &tags, 1);
    t.add_member(7, true, None);
    t.add_member(8, true, None);
    t.set_mentor(Some(8), 2, true, None);
    t.set_score(-5, 3);
    assert_eq!(t.embed_title(&l), "Task Fix it");
    assert_eq!(
        pairs(&t.embed_fields(&l)),
        vec![
            (s("task-embed-id-name"), s("`3`")),
            (s("task-embed-start-date-name"), s("<t:100:f>")),
            (s("task-embed-score-name"), s("`-5`")),
            (s("task-embed-last-save-name"), s("`none`")),
            (s("task-embed-mentor-name"), s("- <@8>")),
            (s("Members 2/10000"), s("- <@7>\n- <@8>\n")),
        ]
    );
    assert_eq!(t.first_to_rate(), Some(7));
    let mut solo = Task::new(4, s("alpha"), 501, s("Solo"), Some(100), &vec![], &tags, 1);
    assert_eq!(solo.first_to_rate(), None);
    solo.set_mentor(Some(9), 2, true, None);
    assert_eq!(solo.first_to_rate(), None);
}

#[test]
fn tag_and_project_cards() {
    let l = loc();
    let mut tag = TaskTag::new(11, 22);
    tag.set_tag_type(Some(TageTypes::InWork));
    tag.set_score_modifier(Some(-2));
    tag.set_ping_role(Some(33));
    assert_eq!(
        pairs(&tag.embed_fields(&l)),
        vec![
            (s("tag-embed-id-name"), s("`11`")),
            (s("tag-embed-forum-id-name"), s("<#22>")),
            (s("tag-embed-tag-type-name"), s("In work")),
            (s("tag-embed-score-modifier-name"), s("`-2`")),
            (s("tag-embed-ping-role-name"), s("<@&33>")),
        ]
    );
    let mut man = ProjectManager::new();
    man.new_project(s("alpha"), 2, 10, Some(5), None).unwrap();
    let mut p = man.delete(&s("alpha")).unwrap();
    p.add_role(1);
    p.add_role(2);
    assert_eq!(p.embed_title(&l), "project-embed-title");
    assert_eq!(
        pairs(&p.embed_fields(&l)),
        vec![
            (s("project-embed-max-tasks-per-user-name"), s("2")),
            (s("project-embed-waiter-role-name"), s("<@&5>")),
            (s("project-embed-task-forum-name"), s("<#10>")),
            (s("Roles (2)"), s("\u{2560}\u{fe0e} <@&1>\n\u{255a} <@&2>\n")),
        ]
    );
}

#[test]
fn project_stat_block() {
    let l = loc();
    let mut tasks = TaskManager::new();
    let tags = TagsManager::new();
    let id = tasks.new_task(s("alpha"), 555, s("t"), Some(Some(1)), &vec![], &tags, 1).unwrap();
    let mut m = ProjectMember::new(1);
    m.join_task(&s("alpha"), id);
    m.change_score(4);
    let (name, text, inline) = m.to_project_stat(s("Bob"), &s("alpha"), &tasks, &l);
    assert_eq!(name, "Bob");
    assert!(inline);
    let pad = "                ";
    let mid = "\u{2560}\u{fe0e}";
    let expected = format!(
        "\n{pad}{mid} **member-project-stat-done-tasks-name:** 0\n{pad}{mid} **member-project-stat-mentor-tasks-name:** 0\n{pad}{mid} **member-project-stat-in-tasks-name:** \n{mid} <#555>\n{pad}{mid} **member-project-stat-last-activity-name:** never\n{pad}\u{255a} **member-project-stat-score-name:** 4\n{pad}"
    );
    assert_eq!(text, expected);
}

#[test]
fn shop_cards_and_visible_pages() {
    let l = loc();
    let page = |name: &str, access: &[&str]| Page {
        name: s(name),
        description: s("desc"),
        price: 5,
        access: access.iter().map(|x| s(x)).collect(),
        not_access: Vec::new(),
        on_buy: Vec::new(),
    };
    let mut m = ProjectMember::new(1);
    m.change_score(12);
    m.shop_data.current_page = 1;
    let f = page("hat", &[]).embed_fields(&m, 3, &l);
    let full: Vec<(String, String, bool)> = f.iter().map(|x| (x.name.clone(), x.value.clone(), x.inline)).collect();
    assert_eq!(
        full,
        vec![
            (s("Item 2"), s("hat"), false),
            (s("shop-embed-description-field"), s("desc"), false),
            (s("shop-embed-price"), s("```5```"), true),
            (s("shop-embed-page"), s("```2/3```"), true),
            (s("shop-embed-balance"), s("```12```"), true),
        ]
    );
    let mut shop = ShopManager::new(s("shop"));
    shop.pages = vec![page("a", &[]), page("b", &["vip"]), page("c", &[])];
    let mut roles: NameMap<u64> = NameMap::new();
    roles.insert(s("vip"), 100);
    let names = |v: Vec<Page>| v.iter().map(|p| p.name.clone()).collect::<Vec<String>>();
    assert_eq!(names(shop.get_pages(&roles, &vec![])), vec![s("a"), s("c")]);
    assert_eq!(names(shop.get_pages(&roles, &vec![100])), vec![s("a"), s("b"), s("c")]);
    let mut hidden = page("d", &[]);
    hidden.not_access = vec![s("vip")];
    shop.pages.push(hidden);
    assert_eq!(names(shop.get_pages(&roles, &vec![100])), vec![s("a"), s("b"), s("c")]);
    assert_eq!(names(shop.get_pages(&roles, &vec![])), vec![s("a"), s("c"), s("d")]);
    let copy = shop.pages[1].clone_page();
    assert_eq!((copy.name, copy.description, copy.price, copy.access), (s("b"), s("desc"), 5, vec![s("vip")]));
}

#[test]
fn statistics_posts_list_the_first_ranked_member() {
    let mut man = ProjectManager::new();
    man.new_project("p".to_string(), 1, 10, None, None).unwrap();
    let mut p = man.delete(&"p".to_string()).unwrap();
    p.add_role(100);
    p.add_role(200);
    let line = |n: &str| (n.to_string(), "stats".to_string(), true);
    let empty = (String::new(), String::new(), false);
    // The first member has no role in the project; the listing stops at
    // the second, ranked under role 200.
    let stats = vec![(None, Some(line("a"))), (Some(200), Some(line("b"))), (Some(100), Some(line("c")))];
    assert_eq!(p.stat_fields(&stats), vec![(100, vec![empty.clone()]), (200, vec![line("b")])]);
    assert_eq!(p.stat_fields(&vec![]), vec![(100, vec![empty.clone()]), (200, vec![empty.clone()])]);
    assert_eq!(p.stat_fields(&vec![(Some(100), None)]), vec![(100, vec![empty.clone()]), (200, vec![empty])]);
}
