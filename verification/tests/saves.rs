use task_bot::saves::{
    config_menu, menu_options, menu_pick, parent_of, picked_db, register_db, save_plus_step, save_step,
    up_dir_of,
    SaveStep,
};

fn s(x: &str) -> String {
    x.to_string()
}

fn browse(db: &str, path: &str, root: &str) -> SaveStep {
    SaveStep::Browse { db: s(db), path: s(path), root: s(root) }
}

fn unload(db: &str, path: &str) -> SaveStep {
    SaveStep::Unload { db: s(db), path: s(path) }
}

#[test]
fn unrestricted_requests() {
    assert_eq!(save_plus_step(&vec![], None), SaveStep::NoDbs);
    assert_eq!(
        save_plus_step(&vec![s("main"), s("backup")], None),
        SaveStep::ChooseDb(vec![(s("main"), s("main:::/")), (s("backup"), s("backup:::/"))])
    );
    assert_eq!(
        save_plus_step(&vec![s("main"), s("backup")], Some(s("x/y.yml"))),
        SaveStep::ChooseDb(vec![(s("main"), s("main:::x/y.yml")), (s("backup"), s("backup:::x/y.yml"))])
    );
    assert_eq!(save_plus_step(&vec![s("main")], Some(s("a/b/"))), browse("main", "a/b/", "a/b/"));
    assert_eq!(save_plus_step(&vec![s("main")], Some(s("a/b.yml"))), unload("main", "a/b.yml"));
    assert_eq!(save_plus_step(&vec![s("main")], None), browse("main", "", ""));
}

#[test]
fn requests_inside_linked_folders() {
    let linked = vec![(s("main"), None), (s("alt"), Some(s("ckey")))];
    assert_eq!(save_step(&linked, Some(s("x.yml"))), unload("alt", "ckey/x.yml"));
    assert_eq!(save_step(&linked, Some(s("dir/"))), browse("alt", "ckey/dir/", "ckey/dir/"));
    assert_eq!(save_step(&linked, None), browse("alt", "ckey/", "ckey/"));
    let two = vec![(s("a"), Some(s("f"))), (s("b"), Some(s("g")))];
    assert_eq!(
        save_step(&two, None),
        SaveStep::ChooseDb(vec![(s("a"), s("a:::f//")), (s("b"), s("b:::g//"))])
    );
    assert_eq!(save_step(&vec![(s("a"), None)], None), SaveStep::NoDbs);
    assert_eq!(save_step(&vec![], Some(s("x"))), SaveStep::NoDbs);
}

#[test]
fn picking_a_database() {
    assert_eq!(picked_db("main:::dir/"), browse("main", "dir/", "dir/"));
    assert_eq!(picked_db("main:::dir/f.yml"), unload("main", "dir/f.yml"));
}

#[test]
fn going_up_a_folder() {
    assert_eq!(up_dir_of("root/sub/../"), "root/");
    assert_eq!(up_dir_of("../"), "/");
    assert_eq!(up_dir_of("a/b/c/../x/../"), "a/b/");
    assert_eq!(up_dir_of("a/b"), "a/b/");
}

#[test]
fn picking_a_menu_entry() {
    assert_eq!(menu_pick("0:::main:::root/:::root/sub/../"), browse("main", "root/", "root/"));
    assert_eq!(menu_pick("1:::main:::r/:::r/dir/"), browse("main", "r/dir/", "r/"));
    assert_eq!(menu_pick("2:::main:::r/:::r/file.yml"), unload("main", "r/file.yml"));
}

#[test]
fn the_parent_of_a_path() {
    assert_eq!(parent_of("saves/"), "saves/");
    assert_eq!(parent_of("saves/a.yml"), "saves/");
    assert_eq!(parent_of("a/x/b/x"), "a//b/");
}

#[test]
fn folder_menus() {
    let entries = vec![(s("../"), s("-")), (s("a.yml"), s("2024-01-01 10:00")), (s("sub/"), s("2024-01-02"))];
    assert_eq!(
        menu_options("main", "saves/", "saves/", &entries),
        vec![
            (s("a.yml"), s("0:::main:::saves/:::saves/a.yml"), s("2024-01-01 10:00")),
            (s("sub/"), s("1:::main:::saves/:::saves/sub/"), s("2024-01-02")),
        ]
    );
    let below = menu_options("main", "saves/sub/", "saves/", &entries);
    assert_eq!(below.len(), 3);
    assert_eq!(below[0], (s("../"), s("0:::main:::saves/:::saves/sub/../"), s("-")));
    assert_eq!(menu_pick(&below[0].1), browse("main", "saves/", "saves/"));
    let many: Vec<(String, String)> = (0..30).map(|i| (format!("f{}.yml", i), s("d"))).collect();
    let opts = menu_options("db", "", "", &many);
    assert_eq!(opts.len(), 25);
    assert_eq!(opts[24].1, "24:::db::::::f24.yml");
}

#[test]
fn registering_a_database() {
    assert_eq!(
        register_db("A = x", " my db ", "http://h", None, None),
        Some((s("my-db"), s("A = x\nmy-db = http://h\nNEEDAUTH = false")))
    );
    assert_eq!(
        register_db("A = x", "my db", "http://h", Some(s("u")), Some(s("p"))),
        Some((s("my-db"), s("A = x\nmy-db = http://h\nNEEDAUTH = true\nmy-db_LOGIN = u\nmy-db_PASSWORD = p")))
    );
    assert_eq!(register_db("my-db = http://h", "my db", "http://o", None, None), None);
}

#[test]
fn configuration_folder_menu() {
    let entries = vec![
        (s(".env"), s("data/.env"), false),
        (s("config.toml"), s("data/config.toml"), false),
        (s("members"), s("data/members"), true),
    ];
    assert_eq!(
        config_menu(&entries),
        vec![(s("config.toml"), s("data/config.toml")), (s("members/"), s("data/members/"))]
    );
    let many: Vec<(String, String, bool)> = (0..40).map(|i| (format!("f{}", i), format!("d/f{}", i), false)).collect();
    let menu = config_menu(&many);
    assert_eq!(menu.len(), 25);
    assert_eq!(menu[24], (s("f24"), s("d/f24")));
}

#[test]
fn offered_entries_open_what_they_name() {
    let entries = vec![(s("a.yml"), s("d1")), (s("sub/"), s("d2"))];
    for (_, value, _) in menu_options("main", "saves/", "saves/", &entries) {
        let step = menu_pick(&value);
        let name = value.rsplit(":::").next().unwrap().to_string();
        if name.ends_with('/') {
            assert_eq!(step, browse("main", &name, "saves/"));
        } else {
            assert_eq!(step, unload("main", &name));
        }
    }
}

#[test]
fn a_chosen_database_opens_like_the_only_one() {
    let dbs = vec![s("main"), s("backup")];
    if let SaveStep::ChooseDb(options) = save_plus_step(&dbs, Some(s("x/y.yml"))) {
        for (i, (_, value)) in options.iter().enumerate() {
            assert_eq!(picked_db(value), save_plus_step(&vec![dbs[i].clone()], Some(s("x/y.yml"))));
        }
    } else {
        panic!("several databases give a choice");
    }
    let linked = vec![(s("a"), Some(s("f"))), (s("b"), Some(s("g")))];
    if let SaveStep::ChooseDb(options) = save_step(&linked, Some(s("dir/"))) {
        assert_eq!(picked_db(&options[1].1), save_step(&vec![linked[1].clone()], Some(s("dir/"))));
        assert_eq!(picked_db(&options[1].1), browse("b", "g/dir/", "g/dir/"));
    } else {
        panic!("several databases give a choice");
    }
}
