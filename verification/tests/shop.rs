use task_bot::localization::{Localization, LocalizationData};
use task_bot::maps::NameMap;
use task_bot::member::ProjectMember;
use task_bot::shop::{Page, Replacement, ShopData, ShopManager};

fn loc_with(content: &str) -> Localization {
    let mut loc = Localization::new(LocalizationData {
        locale_path: "locale".to_string(),
        culture: "EN_en".to_string(),
    });
    loc.collect_locale(content).unwrap();
    loc
}

fn page(name: &str, price: i64, access: &[&str], not_access: &[&str]) -> Page {
    Page {
        name: name.to_string(),
        description: format!("{} description", name),
        price,
        access: access.iter().map(|s| s.to_string()).collect(),
        not_access: not_access.iter().map(|s| s.to_string()).collect(),
        on_buy: Vec::new(),
    }
}

#[test]
fn shop_pages_wrap_around() {
    let mut data = ShopData::default();
    data.pages = vec![page("a", 1, &[], &[]), page("b", 1, &[], &[]), page("c", 1, &[], &[])];
    data.previous();
    assert_eq!(data.current_page, 2);
    data.next();
    assert_eq!(data.current_page, 0);
    data.next();
    data.next();
    assert_eq!(data.current_page, 2);
    data.next();
    assert_eq!(data.current_page, 0);
}

#[test]
fn empty_shop_navigation_stays_in_range() {
    let mut data = ShopData::default();
    data.previous();
    assert_eq!(data.current_page, -1);
    data.next();
    assert_eq!(data.current_page, 0);
}

#[test]
fn buying_takes_the_price_when_affordable() {
    let mut m = ProjectMember::new(1);
    m.change_score(10);
    let p = page("hat", 7, &[], &[]);
    assert!(p.buy(&mut m));
    assert_eq!(m.score, 3);
    assert!(!p.buy(&mut m));
    assert_eq!(m.score, 3);
    assert_eq!(m.all_time_score, 10);
    let gift = page("gift", -5, &[], &[]);
    assert!(gift.buy(&mut m));
    assert_eq!((m.score, m.all_time_score), (8, 15));
}

#[test]
fn an_unaffordable_page_leaves_the_buyer_as_they_were() {
    let mut m = ProjectMember::new(1);
    m.change_score(-3);
    m.set_folder(Some("f".to_string()));
    let dear = page("crown", i64::MAX, &[], &[]);
    assert!(!dear.buy(&mut m));
    assert_eq!((m.score, m.all_time_score), (-3, 0));
    assert_eq!(m.own_folder, Some("f".to_string()));
}

#[test]
fn page_visibility_follows_roles() {
    let mut roles: NameMap<u64> = NameMap::new();
    roles.insert("vip".to_string(), 100);
    roles.insert("banned".to_string(), 200);
    let open = page("open", 1, &[], &[]);
    let vip = page("vip", 1, &["vip", "unknown"], &[]);
    let not_banned = page("nb", 1, &[], &["banned"]);
    assert!(open.visible_to(&roles, &vec![]));
    assert!(vip.visible_to(&roles, &vec![100]));
    assert!(!vip.visible_to(&roles, &vec![300]));
    assert!(!not_banned.visible_to(&roles, &vec![200, 100]));
    assert!(not_banned.visible_to(&roles, &vec![100]));
}

#[test]
fn convert_string_fills_text_replacements() {
    let loc = loc_with("greet: \"Hello <who>, see <where>\"\nwho-text: friend");
    let mut shop = ShopManager::new("shop".to_string());
    shop.add_replacement(&loc, "who".to_string(), Replacement::Str("who-text".to_string()));
    shop.add_replacement(&loc, "where".to_string(), Replacement::Str("#general".to_string()));
    match shop.convert_string(&loc, "greet") {
        Replacement::Str(s) => assert_eq!(s, "Hello <who>, see <where>"),
        other => panic!("unexpected {:?}", other),
    }
    match shop.convert_string(&loc, "Hello <who>, see <where>") {
        Replacement::Str(s) => assert_eq!(s, "Hello friend, see #general"),
        other => panic!("unexpected {:?}", other),
    }
}

#[test]
fn convert_string_yields_a_non_text_replacement() {
    let loc = loc_with("x: y");
    let mut shop = ShopManager::new("shop".to_string());
    shop.add_replacement(&loc, "chan".to_string(), Replacement::Channel(555));
    shop.add_replacement(&loc, "n".to_string(), Replacement::Num(3));
    assert!(matches!(shop.convert_string(&loc, "<chan>"), Replacement::Channel(555)));
    assert!(matches!(shop.convert_string(&loc, "<n> and <chan>"), Replacement::Channel(555)));
    assert!(matches!(shop.convert_string(&loc, "plain"), Replacement::Str(_)));
}

#[test]
fn page_localize_uses_locale_texts() {
    let loc = loc_with("hat: Шляпа");
    let mut p = page("hat", 1, &[], &[]);
    p.localize(&loc);
    assert_eq!(p.name, "Шляпа");
    assert_eq!(p.description, "hat description");
    assert!(matches!(Replacement::default(), Replacement::Nothing));
}

#[test]
fn back_and_on_return_to_the_same_page() {
    let mut data = ShopData::default();
    data.pages = vec![page("a", 1, &[], &[]), page("b", 1, &[], &[]), page("c", 1, &[], &[])];
    for start in 0..3 {
        data.current_page = start;
        data.previous();
        data.next();
        assert_eq!(data.current_page, start);
        data.next();
        data.previous();
        assert_eq!(data.current_page, start);
    }
}
