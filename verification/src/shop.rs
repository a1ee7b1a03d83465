//! The score shop: pages that members buy with their score, the actions a
//! purchase triggers, and the `<name>` replacements of the shop files.
use vstd::prelude::*;
use crate::localization::{localized, Localization};
use crate::maps::NameMap;
use crate::member::ProjectMember;
use crate::text::{concat, contains, contains_str, replace_all, replace_str};

verus! {

/// A value that a shop file names, or what it stands for once resolved.
/// A number written with a fraction is kept by its bit pattern.
#[derive(Debug, Clone)]
pub enum Replacement {
    Str(String),
    Num(i64),
    Float(u64),
    Channel(u64),
    Member(u64),
    Role(u64),
    Nothing,
}

impl Replacement {
    /// No value.
    pub fn default() -> (r: Self)
        ensures
            r is Nothing,
    {
        Replacement::Nothing
    }

    /// A copy of the value.
    pub fn clone_value(&self) -> (r: Self)
        ensures
            r == *self,
    {
        match self {
            Replacement::Str(s) => Replacement::Str(s.clone()),
            Replacement::Num(n) => Replacement::Num(*n),
            Replacement::Float(f) => Replacement::Float(*f),
            Replacement::Channel(c) => Replacement::Channel(*c),
            Replacement::Member(m) => Replacement::Member(*m),
            Replacement::Role(r) => Replacement::Role(*r),
            Replacement::Nothing => Replacement::Nothing,
        }
    }
}

/// What buying a page does.
#[derive(Debug, Clone)]
pub enum ShopAction {
    GiveRoles { member: Replacement, roles: Vec<String> },
    RemoveRoles { member: Replacement, roles: Vec<String> },
    SendMessage { channel: Replacement, message: String },
    Mute { member: Replacement, duration: i64 },
}

/// One article of the shop.
#[derive(Debug, Clone)]
pub struct Page {
    pub name: String,
    pub description: String,
    pub price: i64,
    pub access: Vec<String>,
    pub not_access: Vec<String>,
    pub on_buy: Vec<ShopAction>,
}

/// A member's place in the shop: the pages shown and the one looked at.
#[derive(Debug, Clone)]
pub struct ShopData {
    pub current_page: i32,
    pub pages: Vec<Page>,
}

/// The page shown after going back from page `c` of `n`: the one before,
/// or the last one from the first.
pub open spec fn page_before(c: int, n: int) -> int {
    if c - 1 < 0 {
        n - 1
    } else {
        c - 1
    }
}

/// The page shown after going on from page `c` of `n`: the one after, or
/// the first one from the last.
pub open spec fn page_after(c: int, n: int) -> int {
    if c + 1 > n - 1 {
        0
    } else {
        c + 1
    }
}

/// For any page `c` of a shop that has `n` pages, going on shows page
/// `(c + 1) % n` and going back page `(c + n - 1) % n`; so going back a
/// page and then on again, or on and then back, shows page `c` again.
pub proof fn law_back_and_on_return(c: int, n: int)
    requires
        0 <= c < n,
    ensures
        page_after(c, n) == (c + 1) % n,
        page_before(c, n) == (c + n - 1) % n,
        page_after(page_before(c, n), n) == c,
        page_before(page_after(c, n), n) == c,
{
    if c + 1 < n {
        assert((c + 1) % n == c + 1) by (nonlinear_arith)
            requires
                0 <= c + 1 < n,
        ;
    } else {
        assert((c + 1) % n == 0) by (nonlinear_arith)
            requires
                c + 1 == n,
                n > 0,
        ;
    }
    if c > 0 {
        assert((c + n - 1) % n == c - 1) by (nonlinear_arith)
            requires
                0 < c < n,
        ;
    } else {
        assert((c + n - 1) % n == n - 1) by (nonlinear_arith)
            requires
                c == 0,
                n > 0,
        ;
    }
}

impl ShopData {
    /// The first page of an empty shop.
    pub fn default() -> (d: Self)
        ensures
            d.current_page == 0,
            d.pages@.len() == 0,
    {
        ShopData { current_page: 0, pages: Vec::new() }
    }

    /// Goes one page back, from the first page to the last one.
    pub fn previous(&mut self)
        requires
            old(self).pages@.len() <= i32::MAX,
            old(self).current_page > i32::MIN,
        ensures
            final(self).current_page == page_before(old(self).current_page as int, old(self).pages@.len() as int),
            final(self).pages == old(self).pages,
    {
        self.current_page = self.current_page - 1;
        if self.current_page < 0 {
            self.current_page = self.pages.len() as i32 - 1;
        }
    }

    /// Goes one page on, from the last page to the first one.
    pub fn next(&mut self)
        requires
            old(self).pages@.len() <= i32::MAX,
            old(self).current_page < i32::MAX,
        ensures
            final(self).current_page == page_after(old(self).current_page as int, old(self).pages@.len() as int),
            final(self).pages == old(self).pages,
    {
        self.current_page = self.current_page + 1;
        if self.current_page as i64 > self.pages.len() as i64 - 1 {
            self.current_page = 0;
        }
    }
}

/// `<name>`, the way shop texts refer to a replacement.
pub open spec fn angle_ref(name: Seq<char>) -> Seq<char> {
    seq!['<'] + name + seq!['>']
}

fn angle_ref_exec(name: &str) -> (r: String)
    ensures
        r@ == angle_ref(name@),
{
    let a = concat("<", name);
    let r = concat(a.as_str(), ">");
    proof {
        reveal_strlit("<");
        reveal_strlit(">");
        assert(r@ =~= angle_ref(name@));
    }
    r
}

/// A shop value with strings seen as their characters.
pub enum ShopValue {
    Text(Seq<char>),
    Other(Replacement),
}

/// How a replacement is seen in `ShopValue` terms.
pub open spec fn value_view(r: Replacement) -> ShopValue {
    match r {
        Replacement::Str(s) => ShopValue::Text(s@),
        _ => ShopValue::Other(r),
    }
}

/// What a shop text stands for, given the replacements in the order they
/// are tried: the localized text, in which each string replacement that the
/// text refers to is filled in; a reference to any other replacement yields
/// that replacement itself.
pub open spec fn converted(
    text: Seq<char>,
    out: ShopValue,
    names: Seq<Seq<char>>,
    values: Seq<Replacement>,
) -> ShopValue
    decreases names.len(),
{
    if names.len() == 0 || values.len() == 0 {
        out
    } else if contains(text, angle_ref(names[0])) {
        match values[0] {
            Replacement::Str(r) => converted(
                text,
                match out {
                    ShopValue::Text(s) => ShopValue::Text(replace_all(s, angle_ref(names[0]), r@)),
                    _ => out,
                },
                names.subrange(1, names.len() as int),
                values.subrange(1, values.len() as int),
            ),
            _ => ShopValue::Other(values[0]),
        }
    } else {
        converted(
            text,
            out,
            names.subrange(1, names.len() as int),
            values.subrange(1, values.len() as int),
        )
    }
}

/// Holds the shop pages and the replacements that the shop files define.
pub struct ShopManager {
    pub pages: Vec<Page>,
    pub replacements: NameMap<Replacement>,
    pub shop_path: String,
}

/// Whether some role named in `names` is one of `member_roles`; names that
/// the guild does not know are skipped.
pub open spec fn names_a_held_role(
    names: Seq<String>,
    guild_roles: Map<Seq<char>, u64>,
    member_roles: Seq<u64>,
) -> bool {
    exists|i: int|
        0 <= i < names.len() && guild_roles.dom().contains(#[trigger] names[i]@) && member_roles.contains(
            guild_roles[names[i]@],
        )
}

/// Whether a member with `member_roles` may see `page`: no role of
/// `not_access` is held, and either `access` is empty or one of its roles is
/// held.
pub open spec fn page_visible(page: Page, guild_roles: Map<Seq<char>, u64>, member_roles: Seq<u64>) -> bool {
    &&& !names_a_held_role(page.not_access@, guild_roles, member_roles)
    &&& (page.access@.len() == 0 || names_a_held_role(page.access@, guild_roles, member_roles))
}

fn holds_named_role(names: &Vec<String>, guild_roles: &NameMap<u64>, member_roles: &Vec<u64>) -> (r:
    bool)
    ensures
        r == names_a_held_role(names@, guild_roles@, member_roles@),
{
    let mut i: usize = 0;
    while i < names.len()
        invariant
            i <= names@.len(),
            forall|j: int|
                0 <= j < i ==> !(guild_roles@.dom().contains(#[trigger] names@[j]@)
                    && member_roles@.contains(guild_roles@[names@[j]@])),
        decreases names@.len() - i,
    {
        match guild_roles.get(&names[i]) {
            Some(role) => {
                if vec_contains_u64(member_roles, *role) {
                    return true;
                }
            },
            None => {},
        }
        i = i + 1;
    }
    false
}

/// Whether `v` holds `x`.
pub fn vec_contains_u64(v: &Vec<u64>, x: u64) -> (r: bool)
    ensures
        r == v@.contains(x),
{
    let mut i: usize = 0;
    while i < v.len()
        invariant
            i <= v@.len(),
            forall|j: int| 0 <= j < i ==> v@[j] != x,
        decreases v@.len() - i,
    {
        if v[i] == x {
            return true;
        }
        i = i + 1;
    }
    false
}

/// `a` and `b` are alike: the same kind of action, with the same values.
pub open spec fn action_same(a: ShopAction, b: ShopAction) -> bool {
    match (a, b) {
        (ShopAction::GiveRoles { member: m1, roles: r1 }, ShopAction::GiveRoles { member: m2, roles: r2 }) => m1
            == m2 && r1@ == r2@,
        (ShopAction::RemoveRoles { member: m1, roles: r1 }, ShopAction::RemoveRoles { member: m2, roles: r2 }) => m1
            == m2 && r1@ == r2@,
        (ShopAction::SendMessage { channel: c1, message: t1 }, ShopAction::SendMessage { channel: c2, message: t2 }) => c1
            == c2 && t1 == t2,
        (ShopAction::Mute { member: m1, duration: d1 }, ShopAction::Mute { member: m2, duration: d2 }) => m1 == m2 && d1
            == d2,
        _ => false,
    }
}

/// `a` and `b` are alike: the same texts, price, roles and actions.
pub open spec fn page_same(a: Page, b: Page) -> bool {
    &&& a.name == b.name
    &&& a.description == b.description
    &&& a.price == b.price
    &&& a.access@ == b.access@
    &&& a.not_access@ == b.not_access@
    &&& a.on_buy@.len() == b.on_buy@.len()
    &&& forall|i: int| 0 <= i < a.on_buy@.len() ==> action_same(#[trigger] a.on_buy@[i], b.on_buy@[i])
}

pub(crate) fn clone_names(v: &Vec<String>) -> (r: Vec<String>)
    ensures
        r@ == v@,
{
    let r = v.clone();
    assert(r@ =~= v@);
    r
}

impl ShopAction {
    /// A copy of the action.
    pub fn clone_action(&self) -> (r: Self)
        ensures
            action_same(r, *self),
    {
        match self {
            ShopAction::GiveRoles { member, roles } => ShopAction::GiveRoles {
                member: member.clone_value(),
                roles: clone_names(roles),
            },
            ShopAction::RemoveRoles { member, roles } => ShopAction::RemoveRoles {
                member: member.clone_value(),
                roles: clone_names(roles),
            },
            ShopAction::SendMessage { channel, message } => ShopAction::SendMessage {
                channel: channel.clone_value(),
                message: message.clone(),
            },
            ShopAction::Mute { member, duration } => ShopAction::Mute { member: member.clone_value(), duration: *duration },
        }
    }
}

impl Page {
    /// Whether a member with `member_roles` may see this page, role names
    /// being resolved through `guild_roles`.
    pub fn visible_to(&self, guild_roles: &NameMap<u64>, member_roles: &Vec<u64>) -> (r: bool)
        ensures
            r == page_visible(*self, guild_roles@, member_roles@),
    {
        if holds_named_role(&self.not_access, guild_roles, member_roles) {
            return false;
        }
        if self.access.len() == 0 {
            return true;
        }
        holds_named_role(&self.access, guild_roles, member_roles)
    }

    /// A copy of the page.
    pub fn clone_page(&self) -> (r: Self)
        ensures
            page_same(r, *self),
    {
        let mut on_buy: Vec<ShopAction> = Vec::new();
        let mut i: usize = 0;
        while i < self.on_buy.len()
            invariant
                i <= self.on_buy@.len(),
                on_buy@.len() == i,
                forall|j: int| 0 <= j < i ==> action_same(#[trigger] on_buy@[j], self.on_buy@[j]),
            decreases self.on_buy@.len() - i,
        {
            on_buy.push(self.on_buy[i].clone_action());
            i = i + 1;
        }
        Page {
            name: self.name.clone(),
            description: self.description.clone(),
            price: self.price,
            access: clone_names(&self.access),
            not_access: clone_names(&self.not_access),
            on_buy,
        }
    }

    /// Buys the page for `member`: when the score covers the price, the
    /// price is taken off and the actions are to be run; otherwise nothing
    /// happens.
    pub fn buy(&self, member: &mut ProjectMember) -> (bought: bool)
        requires
            old(member).score >= self.price ==> self.price > i64::MIN && old(member).score - self.price
                <= i64::MAX && (-self.price > 0 ==> old(member).all_time_score - self.price <= i64::MAX),
        ensures
            bought == (old(member).score >= self.price),
            bought ==> final(member).score == old(member).score - self.price,
            bought && self.price < 0 ==> final(member).all_time_score == old(member).all_time_score
                - self.price,
            bought && self.price >= 0 ==> final(member).all_time_score == old(member).all_time_score,
            !bought ==> *final(member) == *old(member),
            final(member).id == old(member).id,
            final(member).in_tasks@ == old(member).in_tasks@,
            final(member).notes == old(member).notes,
            final(member).warns == old(member).warns,
            final(member).shop_data == old(member).shop_data,
            final(member).done_tasks == old(member).done_tasks,
            final(member).mentor_tasks == old(member).mentor_tasks,
            final(member).own_folder == old(member).own_folder,
    {
        if member.score < self.price {
            return false;
        }
        member.change_score(-self.price);
        true
    }

    /// Localizes the page's name and description.
    pub fn localize(&mut self, loc: &Localization)
        ensures
            final(self).name@ == localized(loc.entries(), old(self).name@, Seq::empty()),
            final(self).description@ == localized(loc.entries(), old(self).description@, Seq::empty()),
            final(self).price == old(self).price,
            final(self).access == old(self).access,
            final(self).not_access == old(self).not_access,
            final(self).on_buy == old(self).on_buy,
    {
        self.name = loc.get_string(self.name.as_str(), None);
        self.description = loc.get_string(self.description.as_str(), None);
    }
}

impl ShopManager {
    /// A shop with no pages or replacements, read from `shop_path`.
    pub fn new(shop_path: String) -> (m: Self)
        ensures
            m.pages@.len() == 0,
            m.replacements@ == Map::<Seq<char>, Replacement>::empty(),
            m.shop_path == shop_path,
    {
        ShopManager { pages: Vec::new(), replacements: NameMap::new(), shop_path }
    }

    /// Defines replacement `name`; a string value is localized first.
    pub fn add_replacement(&mut self, loc: &Localization, name: String, value: Replacement)
        ensures
            final(self).replacements@.dom() == old(self).replacements@.dom().insert(name@),
            value_view(final(self).replacements@[name@]) == match value {
                Replacement::Str(s) => ShopValue::Text(localized(loc.entries(), s@, Seq::empty())),
                _ => value_view(value),
            },
            forall|k: Seq<char>|
                k != name@ && old(self).replacements@.dom().contains(k) ==> #[trigger] final(self).replacements@[k] == old(self).replacements@[k],
            final(self).pages == old(self).pages,
    {
        let v = match value {
            Replacement::Str(s) => Replacement::Str(loc.get_string(s.as_str(), None)),
            other => other,
        };
        self.replacements.insert(name, v);
    }

    /// What the shop text `string` stands for (see `converted`), the
    /// replacements being tried in the order they were defined.
    pub fn convert_string(&self, loc: &Localization, string: &str) -> (r: Replacement)
        ensures
            value_view(r) == converted(
                string@,
                ShopValue::Text(localized(loc.entries(), string@, Seq::empty())),
                self.replacements.key_seq(),
                self.replacements.value_seq(),
            ),
    {
        let names = self.replacements.keys();
        let mut out = Replacement::Str(loc.get_string(string, None));
        let ghost all_names = self.replacements.key_seq();
        let ghost all_values = self.replacements.value_seq();
        let ghost target = converted(
            string@,
            ShopValue::Text(localized(loc.entries(), string@, Seq::empty())),
            all_names,
            all_values,
        );
        self.replacements.lemma_seqs();
        let mut i: usize = 0;
        proof {
            assert(all_names.subrange(0, all_names.len() as int) =~= all_names);
            assert(all_values.subrange(0, all_values.len() as int) =~= all_values);
        }
        while i < names.len()
            invariant
                all_names == self.replacements.key_seq(),
                all_values == self.replacements.value_seq(),
                target == converted(
                    string@,
                    ShopValue::Text(localized(loc.entries(), string@, Seq::empty())),
                    self.replacements.key_seq(),
                    self.replacements.value_seq(),
                ),
                names@.len() == all_names.len(),
                all_names.len() == all_values.len(),
                i <= names@.len(),
                forall|j: int| 0 <= j < names@.len() ==> #[trigger] names@[j]@ == all_names[j],
                forall|j: int|
                    #![trigger all_names[j]]
                    0 <= j < all_names.len() ==> self.replacements@.dom().contains(all_names[j])
                        && self.replacements@[all_names[j]] == all_values[j],
                target == converted(
                    string@,
                    value_view(out),
                    all_names.subrange(i as int, all_names.len() as int),
                    all_values.subrange(i as int, all_values.len() as int),
                ),
            decreases names@.len() - i,
        {
            let ghost rest_n = all_names.subrange(i as int, all_names.len() as int);
            let ghost rest_v = all_values.subrange(i as int, all_values.len() as int);
            proof {
                assert(rest_n[0] == all_names[i as int]);
                assert(rest_v[0] == all_values[i as int]);
                assert(rest_n.subrange(1, rest_n.len() as int) =~= all_names.subrange(
                    i + 1,
                    all_names.len() as int,
                ));
                assert(rest_v.subrange(1, rest_v.len() as int) =~= all_values.subrange(
                    i + 1,
                    all_values.len() as int,
                ));
                assert(names@[i as int]@ == all_names[i as int]);
            }
            let pattern = angle_ref_exec(names[i].as_str());
            if contains_str(string, pattern.as_str()) {
                match self.replacements.get(&names[i]) {
                    Some(Replacement::Str(repl)) => {
                        match out {
                            Replacement::Str(s) => {
                                out = Replacement::Str(
                                    replace_str(s.as_str(), pattern.as_str(), repl.as_str()),
                                );
                            },
                            other => {
                                out = other;
                            },
                        }
                    },
                    Some(other) => {
                        proof {
                            assert(*other == all_values[i as int]);
                            assert(value_view(*other) == ShopValue::Other(*other));
                            assert(target == ShopValue::Other(all_values[i as int]));
                        }
                        let res = other.clone_value();
                        assert(value_view(res) == target);
                        return res;
                    },
                    None => {
                        proof {
                            assert(false);
                        }
                    },
                }
            }
            i = i + 1;
        }
        proof {
            assert(all_names.subrange(i as int, all_names.len() as int).len() == 0);
        }
        out
    }
}

/// The pages that a member with `member_roles` may see, in order.
pub open spec fn visible_pages(pages: Seq<Page>, guild_roles: Map<Seq<char>, u64>, member_roles: Seq<u64>) -> Seq<Page> {
    pages.filter(|p: Page| page_visible(p, guild_roles, member_roles))
}

/// Whether `member_roles` holds the guild role that `name` names.
pub open spec fn holds_role_named(name: Seq<char>, guild_roles: Map<Seq<char>, u64>, member_roles: Seq<u64>) -> bool {
    guild_roles.dom().contains(name) && member_roles.contains(guild_roles[name])
}

/// A page is shown to a member only when the member holds no role that
/// its `not_access` names, whatever its `access` says; and, when `access`
/// names roles, only when the member holds one of them.  Every page that
/// meets both is shown.
pub proof fn law_shown_pages_respect_their_roles(pages: Seq<Page>, guild_roles: Map<Seq<char>, u64>, member_roles: Seq<u64>)
    ensures
        forall|k: int, i: int|
            0 <= k < visible_pages(pages, guild_roles, member_roles).len() && 0 <= i < visible_pages(
                pages,
                guild_roles,
                member_roles,
            )[k].not_access@.len() ==> !holds_role_named(
                #[trigger] visible_pages(pages, guild_roles, member_roles)[k].not_access@[i]@,
                guild_roles,
                member_roles,
            ),
        forall|k: int|
            0 <= k < visible_pages(pages, guild_roles, member_roles).len() && (#[trigger] visible_pages(
                pages,
                guild_roles,
                member_roles,
            )[k]).access@.len() > 0 ==> exists|i: int|
                0 <= i < visible_pages(pages, guild_roles, member_roles)[k].access@.len() && holds_role_named(
                    #[trigger] visible_pages(pages, guild_roles, member_roles)[k].access@[i]@,
                    guild_roles,
                    member_roles,
                ),
        forall|k: int|
            0 <= k < pages.len() && (forall|i: int|
                0 <= i < pages[k].not_access@.len() ==> !holds_role_named(
                    #[trigger] pages[k].not_access@[i]@,
                    guild_roles,
                    member_roles,
                )) && (pages[k].access@.len() == 0 || exists|i: int|
                0 <= i < pages[k].access@.len() && holds_role_named(
                    #[trigger] pages[k].access@[i]@,
                    guild_roles,
                    member_roles,
                )) ==> visible_pages(pages, guild_roles, member_roles).contains(#[trigger] pages[k]),
{
    let keep = |p: Page| page_visible(p, guild_roles, member_roles);
    let shown = visible_pages(pages, guild_roles, member_roles);
    assert(shown == pages.filter(keep));
    pages.filter_lemma(keep);
    assert forall|k: int, i: int| 0 <= k < shown.len() && 0 <= i < shown[k].not_access@.len() implies !holds_role_named(
        #[trigger] shown[k].not_access@[i]@,
        guild_roles,
        member_roles,
    ) by {
        assert(keep(shown[k]));
        if holds_role_named(shown[k].not_access@[i]@, guild_roles, member_roles) {
            assert(names_a_held_role(shown[k].not_access@, guild_roles, member_roles));
        }
    }
    assert forall|k: int| 0 <= k < shown.len() && (#[trigger] shown[k]).access@.len() > 0 implies exists|i: int|
        0 <= i < shown[k].access@.len() && holds_role_named(#[trigger] shown[k].access@[i]@, guild_roles, member_roles) by {
        assert(keep(shown[k]));
        let i = choose|i: int| 0 <= i < shown[k].access@.len() && guild_roles.dom().contains(#[trigger] shown[k].access@[i]@)
            && member_roles.contains(guild_roles[shown[k].access@[i]@]);
        assert(holds_role_named(shown[k].access@[i]@, guild_roles, member_roles));
    }
    assert forall|k: int|
        0 <= k < pages.len() && (forall|i: int|
            0 <= i < pages[k].not_access@.len() ==> !holds_role_named(
                #[trigger] pages[k].not_access@[i]@,
                guild_roles,
                member_roles,
            )) && (pages[k].access@.len() == 0 || exists|i: int|
            0 <= i < pages[k].access@.len() && holds_role_named(#[trigger] pages[k].access@[i]@, guild_roles, member_roles))
        implies shown.contains(#[trigger] pages[k]) by {
        if names_a_held_role(pages[k].not_access@, guild_roles, member_roles) {
            let i = choose|i: int| 0 <= i < pages[k].not_access@.len() && guild_roles.dom().contains(
                #[trigger] pages[k].not_access@[i]@,
            ) && member_roles.contains(guild_roles[pages[k].not_access@[i]@]);
            assert(holds_role_named(pages[k].not_access@[i]@, guild_roles, member_roles));
        }
        if pages[k].access@.len() > 0 {
            let i = choose|i: int| 0 <= i < pages[k].access@.len() && holds_role_named(
                #[trigger] pages[k].access@[i]@,
                guild_roles,
                member_roles,
            );
            assert(names_a_held_role(pages[k].access@, guild_roles, member_roles));
        }
        assert(keep(pages[k]));
        assert(pages.contains(pages[k]));
        pages.filter_lemma(keep);
    }
}

impl ShopManager {
    /// Copies of the pages that a member with `member_roles` may see (see
    /// `page_visible`), in order; role names are resolved through
    /// `guild_roles`.
    pub fn get_pages(&self, guild_roles: &NameMap<u64>, member_roles: &Vec<u64>) -> (r: Vec<Page>)
        ensures
            r@.len() == visible_pages(self.pages@, guild_roles@, member_roles@).len(),
            forall|i: int| 0 <= i < r@.len() ==> page_same(
                #[trigger] r@[i],
                visible_pages(self.pages@, guild_roles@, member_roles@)[i],
            ),
    {
        let ghost keep = |p: Page| page_visible(p, guild_roles@, member_roles@);
        let ghost pages = self.pages@;
        let mut out: Vec<Page> = Vec::new();
        let mut k: usize = 0;
        assert(pages.take(0).filter(keep) =~= Seq::<Page>::empty());
        while k < self.pages.len()
            invariant
                k <= self.pages@.len(),
                pages == self.pages@,
                keep == (|p: Page| page_visible(p, guild_roles@, member_roles@)),
                out@.len() == pages.take(k as int).filter(keep).len(),
                forall|i: int| 0 <= i < out@.len() ==> page_same(#[trigger] out@[i], pages.take(k as int).filter(keep)[i]),
            decreases self.pages@.len() - k,
        {
            assert(pages.take(k + 1) =~= pages.take(k as int).push(pages[k as int]));
            proof {
                pages.take(k as int).lemma_filter_push(pages[k as int], keep);
            }
            if self.pages[k].visible_to(guild_roles, member_roles) {
                let ghost before = out@;
                out.push(self.pages[k].clone_page());
                proof {
                    let f = pages.take(k + 1).filter(keep);
                    assert forall|i: int| 0 <= i < out@.len() implies page_same(#[trigger] out@[i], f[i]) by {
                        if i < before.len() {
                            assert(out@[i] == before[i]);
                        }
                    }
                }
            }
            k = k + 1;
        }
        assert(pages.take(self.pages@.len() as int) =~= pages);
        out
    }
}

} // verus!
