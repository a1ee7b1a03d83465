use task_bot::member::ProjectMember;
use task_bot::localization::{Localization, LocalizationData};
use task_bot::shop::{Page, Replacement, ShopAction, ShopManager};
use task_bot::shop_actions::ActionRun;

fn loc_with(content: &str) -> Localization {
    let mut loc = Localization::new(LocalizationData {
        locale_path: "locale".to_string(),
        culture: "EN_en".to_string(),
    });
    loc.collect_locale(content).unwrap();
    loc
}

fn shop(loc: &Localization) -> ShopManager {
    let mut shop = ShopManager::new("shop".to_string());
    shop.add_replacement(loc, "boss".to_string(), Replacement::Num(42));
    shop.add_replacement(loc, "news".to_string(), Replacement::Channel(555));
    shop.add_replacement(loc, "who".to_string(), Replacement::Str("friend".to_string()));
    shop
}

#[test]
fn actions_name_their_targets_by_id() {
    let loc = loc_with("x: y");
    let shop = shop(&loc);
    let mut give = ShopAction::GiveRoles { member: Replacement::Str("<boss>".to_string()), roles: vec!["vip".to_string()] };
    assert_eq!(give.convert(&shop, &loc), Ok(()));
    assert!(matches!(give, ShopAction::GiveRoles { member: Replacement::Member(42), ref roles } if roles == &vec!["vip".to_string()]));
    let mut mute = ShopAction::Mute { member: Replacement::Num(7), duration: 60 };
    assert_eq!(mute.convert(&shop, &loc), Ok(()));
    assert!(matches!(mute, ShopAction::Mute { member: Replacement::Member(7), duration: 60 }));
    let mut nobody = ShopAction::RemoveRoles { member: Replacement::Nothing, roles: vec![] };
    assert_eq!(nobody.convert(&shop, &loc), Ok(()));
    assert!(matches!(nobody, ShopAction::RemoveRoles { member: Replacement::Nothing, .. }));
    let mut bad = ShopAction::Mute { member: Replacement::Channel(1), duration: 5 };
    assert_eq!(bad.convert(&shop, &loc), Err("uncompatible type to convert into member".to_string()));
    assert!(matches!(bad, ShopAction::Mute { member: Replacement::Channel(1), duration: 5 }));
    let mut text = ShopAction::GiveRoles { member: Replacement::Str("someone".to_string()), roles: vec![] };
    assert_eq!(text.convert(&shop, &loc), Err("uncompatible type to convert into member".to_string()));
}

#[test]
fn messages_are_filled_in() {
    let loc = loc_with("x: y");
    let shop = shop(&loc);
    let mut send = ShopAction::SendMessage { channel: Replacement::Str("<news>".to_string()), message: "hi <who>".to_string() };
    assert_eq!(send.convert(&shop, &loc), Ok(()));
    assert!(matches!(send, ShopAction::SendMessage { channel: Replacement::Channel(555), ref message } if message == "hi friend"));
    let mut odd = ShopAction::SendMessage { channel: Replacement::Nothing, message: "<boss>".to_string() };
    assert_eq!(
        odd.convert(&shop, &loc),
        Err("message field in sendMessage must be string or string replacement".to_string())
    );
    let mut wrong = ShopAction::SendMessage { channel: Replacement::Member(3), message: "hey".to_string() };
    assert_eq!(wrong.convert(&shop, &loc), Err("uncompatible type to convert into channel".to_string()));
}

#[test]
fn pages_convert_until_an_action_fails() {
    let loc = loc_with("hat: Hat");
    let shop = shop(&loc);
    let mut page = Page {
        name: "hat".to_string(),
        description: "d".to_string(),
        price: 3,
        access: vec![],
        not_access: vec![],
        on_buy: vec![
            ShopAction::Mute { member: Replacement::Str("<boss>".to_string()), duration: 1 },
            ShopAction::Mute { member: Replacement::Channel(1), duration: 1 },
        ],
    };
    assert_eq!(page.convert(&shop, &loc), Err("uncompatible type to convert into member".to_string()));
    assert_eq!(page.name, "Hat");
    assert!(matches!(page.on_buy[0], ShopAction::Mute { member: Replacement::Member(42), .. }));
    page.on_buy.pop();
    assert_eq!(page.convert(&shop, &loc), Ok(()));
}

#[test]
fn buying_runs_actions_on_their_targets() {
    let give = ShopAction::GiveRoles { member: Replacement::Nothing, roles: vec!["vip".to_string()] };
    assert_eq!(give.plan(Some(9), 9, 100), Ok(ActionRun::GiveRoles { member: 9, roles: vec!["vip".to_string()] }));
    assert_eq!(give.plan(None, 9, 100), Err(String::new()));
    let mute = ShopAction::Mute { member: Replacement::Nothing, duration: 30 };
    assert_eq!(
        mute.plan(None, 9, 100),
        Err("member field if not specified if mute action and cannot take member from interaction".to_string())
    );
    let mute_boss = ShopAction::Mute { member: Replacement::Member(42), duration: 30 };
    assert_eq!(mute_boss.plan(None, 9, 100), Ok(ActionRun::Mute { member: 42, duration: 30 }));
    let send = ShopAction::SendMessage { channel: Replacement::Nothing, message: "<AuthorPing> bought <AuthorPing>!".to_string() };
    assert_eq!(
        send.plan(Some(9), 9, 100),
        Ok(ActionRun::SendMessage { channel: 100, message: "<@9> bought <@9>!".to_string() })
    );
    let send_news = ShopAction::SendMessage { channel: Replacement::Channel(555), message: "x".to_string() };
    assert_eq!(send_news.plan(None, 9, 100), Ok(ActionRun::SendMessage { channel: 555, message: "x".to_string() }));
    let unresolved = ShopAction::RemoveRoles { member: Replacement::Num(1), roles: vec![] };
    assert_eq!(unresolved.plan(Some(9), 9, 100), Err("the action's target was not resolved".to_string()));
    assert_eq!(
        send.failure_report("hat", "boom"),
        "error while call sendMessage shop action in page \"hat\": boom"
    );
}

#[test]
fn resolved_actions_run_for_a_member() {
    let loc = loc_with("x: y");
    let shop = shop(&loc);
    let mut actions = vec![
        ShopAction::GiveRoles { member: Replacement::Str("<boss>".to_string()), roles: vec![] },
        ShopAction::RemoveRoles { member: Replacement::Nothing, roles: vec![] },
        ShopAction::SendMessage { channel: Replacement::Str("<news>".to_string()), message: "m".to_string() },
        ShopAction::SendMessage { channel: Replacement::Nothing, message: "m".to_string() },
        ShopAction::Mute { member: Replacement::Num(4), duration: 1 },
    ];
    for a in actions.iter_mut() {
        assert_eq!(a.convert(&shop, &loc), Ok(()));
        assert!(a.plan(Some(9), 9, 100).is_ok());
    }
}

#[test]
fn shop_test() {
    let loc = loc_with("x: y");
    let mut shop = ShopManager::new("shop".to_string());
    shop.add_replacement(&loc, "test str".to_string(), Replacement::Str("test 1 2 3".to_string()));
    shop.add_replacement(&loc, "test num".to_string(), Replacement::Num(123));
    shop.add_replacement(&loc, "Test Float".to_string(), Replacement::Float(1.23f64.to_bits()));
    let roles = vec!["1".to_string(), "2".to_string(), "3".to_string()];
    let mut page = Page {
        name: "page-test-locale".to_string(),
        description: "test page desc.".to_string(),
        price: 2,
        access: vec![],
        not_access: vec![],
        on_buy: vec![
            ShopAction::SendMessage { channel: Replacement::Nothing, message: "<test str> test test".to_string() },
            ShopAction::GiveRoles { member: Replacement::Str("<test num>".to_string()), roles: roles.clone() },
            ShopAction::RemoveRoles { member: Replacement::Str("<test num>".to_string()), roles: roles.clone() },
            ShopAction::Mute { member: Replacement::Str("<test num>".to_string()), duration: 60 },
        ],
    };
    assert_eq!(page.convert(&shop, &loc), Ok(()));
    assert_eq!(page.name, "page-test-locale");
    assert!(matches!(&page.on_buy[0], ShopAction::SendMessage { channel: Replacement::Nothing, message } if message == "test 1 2 3 test test"));
    assert!(matches!(&page.on_buy[1], ShopAction::GiveRoles { member: Replacement::Member(123), roles: r } if r == &roles));
    assert!(matches!(&page.on_buy[2], ShopAction::RemoveRoles { member: Replacement::Member(123), .. }));
    assert!(matches!(&page.on_buy[3], ShopAction::Mute { member: Replacement::Member(123), duration: 60 }));
    println!("{:#?}", page);
}

#[test]
fn buying_plans_every_action_in_order_and_charges_once() {
    let page = Page {
        name: "pack".to_string(),
        description: String::new(),
        price: 4,
        access: vec![],
        not_access: vec![],
        on_buy: vec![
            ShopAction::SendMessage { channel: Replacement::Channel(70), message: "hi <AuthorPing>".to_string() },
            ShopAction::Mute { member: Replacement::Nothing, duration: 60 },
            ShopAction::GiveRoles { member: Replacement::Nothing, roles: vec!["vip".to_string()] },
        ],
    };
    let mut m = ProjectMember::new(3);
    m.change_score(10);
    // Not a guild member: the mute has nobody to mute, the rest still runs.
    let runs = page.purchase(&mut m, None, 3, 80).unwrap();
    assert_eq!(runs.len(), 3);
    assert_eq!(runs[0], Ok(ActionRun::SendMessage { channel: 70, message: "hi <@3>".to_string() }));
    assert!(runs[1].is_err());
    assert!(runs[2].is_err());
    assert_eq!((m.score, m.all_time_score), (6, 10));
    let runs = page.purchase(&mut m, Some(3), 3, 80).unwrap();
    assert_eq!(runs[1], Ok(ActionRun::Mute { member: 3, duration: 60 }));
    assert_eq!(runs[2], Ok(ActionRun::GiveRoles { member: 3, roles: vec!["vip".to_string()] }));
    assert_eq!(m.score, 2);
    // Too poor now: nothing runs, nothing changes.
    assert!(page.purchase(&mut m, Some(3), 3, 80).is_none());
    assert_eq!(m.score, 2);
}
