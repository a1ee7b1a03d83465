//! The actions of shop pages: how the values a shop file gives them are
//! resolved once the shop is loaded, and what buying a page then runs.
use vstd::prelude::*;
use crate::localization::{localized, Localization};
use crate::member::ProjectMember;
use crate::shop::{action_same, clone_names, converted, value_view, Page, Replacement, ShopAction, ShopManager, ShopValue};
use crate::text::{concat, decimal, replace_all, replace_str, u64_to_string};

verus! {

// ---------------------------------------------------------------------------
// Resolving the values of a shop file
// ---------------------------------------------------------------------------
/// What a value of a shop file stands for: a string goes through the
/// shop's replacements (see `ShopManager::convert_string`), anything else
/// stays as it is.
pub open spec fn looked_up(r: Replacement, shop: ShopManager, entries: Map<Seq<char>, Seq<char>>) -> ShopValue {
    match r {
        Replacement::Str(s) => converted(
            s@,
            ShopValue::Text(localized(entries, s@, Seq::empty())),
            shop.replacements.key_seq(),
            shop.replacements.value_seq(),
        ),
        _ => value_view(r),
    }
}

/// Why a value cannot name a member.
pub open spec fn not_a_member() -> Seq<char> {
    "uncompatible type to convert into member"@
}

/// Why a value cannot name a channel.
pub open spec fn not_a_channel() -> Seq<char> {
    "uncompatible type to convert into channel"@
}

/// Why a message is not text.
pub open spec fn message_not_text() -> Seq<char> {
    "message field in sendMessage must be string or string replacement"@
}

/// The member a resolved value names: nothing (the buyer), or a member by
/// id, a number being taken as an id.
pub open spec fn as_member(v: ShopValue) -> Result<Replacement, Seq<char>> {
    match v {
        ShopValue::Other(Replacement::Nothing) => Ok(Replacement::Nothing),
        ShopValue::Other(Replacement::Num(n)) => Ok(Replacement::Member(n as u64)),
        ShopValue::Other(Replacement::Member(m)) => Ok(Replacement::Member(m)),
        _ => Err(not_a_member()),
    }
}

/// The channel a resolved value names: nothing (where the page was
/// bought), or a channel by id, a number being taken as an id.
pub open spec fn as_channel(v: ShopValue) -> Result<Replacement, Seq<char>> {
    match v {
        ShopValue::Other(Replacement::Nothing) => Ok(Replacement::Nothing),
        ShopValue::Other(Replacement::Num(n)) => Ok(Replacement::Channel(n as u64)),
        ShopValue::Other(Replacement::Channel(c)) => Ok(Replacement::Channel(c)),
        _ => Err(not_a_channel()),
    }
}

/// What resolving an action gives: the action with its member or channel
/// named by id and its message filled in, or why it cannot be resolved.
pub open spec fn resolved_action(a: ShopAction, shop: ShopManager, entries: Map<Seq<char>, Seq<char>>) -> Result<
    ShopAction,
    Seq<char>,
> {
    match a {
        ShopAction::GiveRoles { member, roles } => match as_member(looked_up(member, shop, entries)) {
            Ok(m) => Ok(ShopAction::GiveRoles { member: m, roles }),
            Err(e) => Err(e),
        },
        ShopAction::RemoveRoles { member, roles } => match as_member(looked_up(member, shop, entries)) {
            Ok(m) => Ok(ShopAction::RemoveRoles { member: m, roles }),
            Err(e) => Err(e),
        },
        ShopAction::Mute { member, duration } => match as_member(looked_up(member, shop, entries)) {
            Ok(m) => Ok(ShopAction::Mute { member: m, duration }),
            Err(e) => Err(e),
        },
        ShopAction::SendMessage { channel, message } => match looked_up(Replacement::Str(message), shop, entries) {
            ShopValue::Text(_) => match as_channel(looked_up(channel, shop, entries)) {
                Ok(c) => Ok(ShopAction::SendMessage { channel: c, message }),
                Err(e) => Err(e),
            },
            _ => Err(message_not_text()),
        },
    }
}

/// `a` is like `b` (see `action_same`), with its message, if any, being
/// `text`.
pub open spec fn with_message(a: ShopAction, b: ShopAction, text: Seq<char>) -> bool {
    match (a, b) {
        (ShopAction::SendMessage { channel: c1, message: m1 }, ShopAction::SendMessage { channel: c2, message: _ }) => c1
            == c2 && m1@ == text,
        _ => action_same(a, b),
    }
}

/// The message text of a `SendMessage` action once looked up.
pub open spec fn message_text(a: ShopAction, shop: ShopManager, entries: Map<Seq<char>, Seq<char>>) -> Seq<char> {
    match a {
        ShopAction::SendMessage { channel: _, message } => match looked_up(Replacement::Str(message), shop, entries) {
            ShopValue::Text(t) => t,
            _ => Seq::empty(),
        },
        _ => Seq::empty(),
    }
}

/// Resolves the member a value names (see `as_member`).
fn member_value(v: Replacement) -> (r: Result<Replacement, String>)
    ensures
        match (r, as_member(value_view(v))) {
            (Ok(a), Ok(b)) => a == b,
            (Err(a), Err(b)) => a@ == b,
            _ => false,
        },
{
    match v {
        Replacement::Nothing => Ok(Replacement::Nothing),
        Replacement::Num(n) => Ok(Replacement::Member(n as u64)),
        Replacement::Member(m) => Ok(Replacement::Member(m)),
        _ => Err(String::from_str("uncompatible type to convert into member")),
    }
}

/// Resolves the channel a value names (see `as_channel`).
fn channel_value(v: Replacement) -> (r: Result<Replacement, String>)
    ensures
        match (r, as_channel(value_view(v))) {
            (Ok(a), Ok(b)) => a == b,
            (Err(a), Err(b)) => a@ == b,
            _ => false,
        },
{
    match v {
        Replacement::Nothing => Ok(Replacement::Nothing),
        Replacement::Num(n) => Ok(Replacement::Channel(n as u64)),
        Replacement::Channel(c) => Ok(Replacement::Channel(c)),
        _ => Err(String::from_str("uncompatible type to convert into channel")),
    }
}

/// A value of a shop file looked up (see `looked_up`).
fn look_up(r: &Replacement, shop: &ShopManager, loc: &Localization) -> (v: Replacement)
    ensures
        value_view(v) == looked_up(*r, *shop, loc.entries()),
        !(r is Str) ==> v == *r,
{
    match r {
        Replacement::Str(s) => shop.convert_string(loc, s.as_str()),
        _ => r.clone_value(),
    }
}

impl ShopAction {
    /// The action with its values resolved (see `resolved_action`), or why
    /// they cannot be.
    pub fn resolved(&self, shop: &ShopManager, loc: &Localization) -> (r: Result<ShopAction, String>)
        ensures
            match resolved_action(*self, *shop, loc.entries()) {
                Ok(a) => r matches Ok(b) && with_message(b, a, message_text(*self, *shop, loc.entries())),
                Err(e) => r matches Err(x) && x@ == e,
            },
    {
        match self {
            ShopAction::GiveRoles { member, roles } => match member_value(look_up(member, shop, loc)) {
                Ok(m) => Ok(ShopAction::GiveRoles { member: m, roles: clone_names(roles) }),
                Err(e) => Err(e),
            },
            ShopAction::RemoveRoles { member, roles } => match member_value(look_up(member, shop, loc)) {
                Ok(m) => Ok(ShopAction::RemoveRoles { member: m, roles: clone_names(roles) }),
                Err(e) => Err(e),
            },
            ShopAction::Mute { member, duration } => match member_value(look_up(member, shop, loc)) {
                Ok(m) => Ok(ShopAction::Mute { member: m, duration: *duration }),
                Err(e) => Err(e),
            },
            ShopAction::SendMessage { channel, message } => {
                match shop.convert_string(loc, message.as_str()) {
                    Replacement::Str(text) => match channel_value(look_up(channel, shop, loc)) {
                        Ok(c) => Ok(ShopAction::SendMessage { channel: c, message: text }),
                        Err(e) => Err(e),
                    },
                    _ => Err(String::from_str("message field in sendMessage must be string or string replacement")),
                }
            },
        }
    }

    /// Resolves the action's values (see `resolved_action`); on failure
    /// the action is left as it was.
    pub fn convert(&mut self, shop: &ShopManager, loc: &Localization) -> (r: Result<(), String>)
        ensures
            match resolved_action(*old(self), *shop, loc.entries()) {
                Ok(a) => r is Ok && with_message(*final(self), a, message_text(*old(self), *shop, loc.entries())),
                Err(e) => r matches Err(x) && x@ == e && *final(self) == *old(self),
            },
    {
        match self.resolved(shop, loc) {
            Ok(a) => {
                *self = a;
                Ok(())
            },
            Err(e) => Err(e),
        }
    }
}

impl Page {
    /// Localizes the page (see `Page::localize`) and resolves its actions
    /// in order (see `ShopAction::convert`), stopping at the first that
    /// cannot be resolved, whose reason is returned.
    pub fn convert(&mut self, shop: &ShopManager, loc: &Localization) -> (r: Result<(), String>)
        ensures
            final(self).name@ == localized(loc.entries(), old(self).name@, Seq::empty()),
            final(self).description@ == localized(loc.entries(), old(self).description@, Seq::empty()),
            final(self).price == old(self).price,
            final(self).access == old(self).access,
            final(self).not_access == old(self).not_access,
            final(self).on_buy@.len() == old(self).on_buy@.len(),
            r is Ok <==> forall|i: int|
                0 <= i < old(self).on_buy@.len() ==> (#[trigger] resolved_action(old(self).on_buy@[i], *shop, loc.entries())) is Ok,
            r is Ok ==> forall|i: int|
                0 <= i < old(self).on_buy@.len() ==> with_message(
                    #[trigger] final(self).on_buy@[i],
                    resolved_action(old(self).on_buy@[i], *shop, loc.entries())->Ok_0,
                    message_text(old(self).on_buy@[i], *shop, loc.entries()),
                ),
            r matches Err(e) ==> exists|k: int|
                0 <= k < old(self).on_buy@.len() && resolved_action(#[trigger] old(self).on_buy@[k], *shop, loc.entries())
                    == Err::<ShopAction, Seq<char>>(e@) && forall|j: int|
                    0 <= j < k ==> (#[trigger] resolved_action(old(self).on_buy@[j], *shop, loc.entries())) is Ok,
    {
        let ghost orig = self.on_buy@;
        self.localize(loc);
        let ghost name0 = self.name;
        let ghost description0 = self.description;
        let mut i: usize = 0;
        while i < self.on_buy.len()
            invariant
                i <= self.on_buy@.len(),
                orig == old(self).on_buy@,
                self.name == name0,
                self.description == description0,
                name0@ == localized(loc.entries(), old(self).name@, Seq::empty()),
                description0@ == localized(loc.entries(), old(self).description@, Seq::empty()),
                self.price == old(self).price,
                self.access == old(self).access,
                self.not_access == old(self).not_access,
                self.on_buy@.len() == orig.len(),
                forall|j: int| i <= j < orig.len() ==> self.on_buy@[j] == orig[j],
                forall|j: int| 0 <= j < i ==> (#[trigger] resolved_action(orig[j], *shop, loc.entries())) is Ok,
                forall|j: int|
                    0 <= j < i ==> with_message(
                        #[trigger] self.on_buy@[j],
                        resolved_action(orig[j], *shop, loc.entries())->Ok_0,
                        message_text(orig[j], *shop, loc.entries()),
                    ),
            decreases self.on_buy@.len() - i,
        {
            match self.on_buy[i].resolved(shop, loc) {
                Ok(a) => {
                    self.on_buy.set(i, a);
                },
                Err(e) => {
                    assert(resolved_action(orig[i as int], *shop, loc.entries()) is Err);
                    return Err(e);
                },
            }
            i = i + 1;
        }
        Ok(())
    }
}

// ---------------------------------------------------------------------------
// Buying
// ---------------------------------------------------------------------------
/// What an action does when its page is bought, as values.
pub enum RunModel {
    GiveRoles { member: u64, roles: Seq<Seq<char>> },
    RemoveRoles { member: u64, roles: Seq<Seq<char>> },
    SendMessage { channel: u64, message: Seq<char> },
    Mute { member: u64, duration: i64 },
}

/// What an action does when its page is bought, its targets known.
#[derive(Debug, PartialEq)]
pub enum ActionRun {
    GiveRoles { member: u64, roles: Vec<String> },
    RemoveRoles { member: u64, roles: Vec<String> },
    SendMessage { channel: u64, message: String },
    Mute { member: u64, duration: i64 },
}

impl View for ActionRun {
    type V = RunModel;

    open spec fn view(&self) -> RunModel {
        match self {
            ActionRun::GiveRoles { member, roles } => RunModel::GiveRoles {
                member: *member,
                roles: roles@.map_values(|x: String| x@),
            },
            ActionRun::RemoveRoles { member, roles } => RunModel::RemoveRoles {
                member: *member,
                roles: roles@.map_values(|x: String| x@),
            },
            ActionRun::SendMessage { channel, message } => RunModel::SendMessage { channel: *channel, message: message@ },
            ActionRun::Mute { member, duration } => RunModel::Mute { member: *member, duration: *duration },
        }
    }
}

/// Why an action names a target that was not resolved.
pub open spec fn unresolved_target() -> Seq<char> {
    "the action's target was not resolved"@
}

/// Why a mute has nobody to mute.
pub open spec fn nobody_to_mute() -> Seq<char> {
    "member field if not specified if mute action and cannot take member from interaction"@
}

/// The member an action applies to: the one it names, or else the buyer
/// (`None` when the page was not bought as a guild member).
pub open spec fn target_member(m: Replacement, buyer: Option<u64>, missing: Seq<char>) -> Result<u64, Seq<char>> {
    match m {
        Replacement::Member(id) => Ok(id),
        Replacement::Nothing => match buyer {
            Some(b) => Ok(b),
            None => Err(missing),
        },
        _ => Err(unresolved_target()),
    }
}

/// The mention of the buyer that `<AuthorPing>` stands for in messages.
pub open spec fn author_ping(author: u64) -> Seq<char> {
    "<@"@ + decimal(author as nat) + ">"@
}

/// What buying runs for action `a`: its member or channel (by default the
/// buyer, or the channel where the page was bought), and for a message the
/// text with each `<AuthorPing>` replaced by a mention of `author`.
pub open spec fn planned(a: ShopAction, buyer: Option<u64>, author: u64, channel: u64) -> Result<RunModel, Seq<char>> {
    match a {
        ShopAction::GiveRoles { member, roles } => match target_member(member, buyer, Seq::empty()) {
            Ok(m) => Ok(RunModel::GiveRoles { member: m, roles: roles@.map_values(|x: String| x@) }),
            Err(e) => Err(e),
        },
        ShopAction::RemoveRoles { member, roles } => match target_member(member, buyer, Seq::empty()) {
            Ok(m) => Ok(RunModel::RemoveRoles { member: m, roles: roles@.map_values(|x: String| x@) }),
            Err(e) => Err(e),
        },
        ShopAction::Mute { member, duration } => match target_member(member, buyer, nobody_to_mute()) {
            Ok(m) => Ok(RunModel::Mute { member: m, duration }),
            Err(e) => Err(e),
        },
        ShopAction::SendMessage { channel: target, message } => {
            let text = replace_all(message@, "<AuthorPing>"@, author_ping(author));
            match target {
                Replacement::Channel(c) => Ok(RunModel::SendMessage { channel: c, message: text }),
                Replacement::Nothing => Ok(RunModel::SendMessage { channel, message: text }),
                _ => Err(unresolved_target()),
            }
        },
    }
}

/// The member an action applies to (see `target_member`).
fn member_target(m: &Replacement, buyer: Option<u64>, missing: &str) -> (r: Result<u64, String>)
    ensures
        match (r, target_member(*m, buyer, missing@)) {
            (Ok(a), Ok(b)) => a == b,
            (Err(a), Err(b)) => a@ == b,
            _ => false,
        },
{
    match m {
        Replacement::Member(id) => Ok(*id),
        Replacement::Nothing => match buyer {
            Some(b) => Ok(b),
            None => Err(String::from_str(missing)),
        },
        _ => Err(String::from_str("the action's target was not resolved")),
    }
}

impl ShopAction {
    /// What buying runs for this action (see `planned`): `buyer` is the
    /// buyer as a guild member, if they are one, `author` who bought, and
    /// `channel` where.
    pub fn plan(&self, buyer: Option<u64>, author: u64, channel: u64) -> (r: Result<ActionRun, String>)
        ensures
            match (r, planned(*self, buyer, author, channel)) {
                (Ok(a), Ok(b)) => a@ == b,
                (Err(a), Err(b)) => a@ == b,
                _ => false,
            },
    {
        proof {
            reveal_strlit("");
        }
        match self {
            ShopAction::GiveRoles { member, roles } => match member_target(member, buyer, "") {
                Ok(m) => Ok(ActionRun::GiveRoles { member: m, roles: clone_names(roles) }),
                Err(e) => Err(e),
            },
            ShopAction::RemoveRoles { member, roles } => match member_target(member, buyer, "") {
                Ok(m) => Ok(ActionRun::RemoveRoles { member: m, roles: clone_names(roles) }),
                Err(e) => Err(e),
            },
            ShopAction::Mute { member, duration } => match member_target(
                member,
                buyer,
                "member field if not specified if mute action and cannot take member from interaction",
            ) {
                Ok(m) => Ok(ActionRun::Mute { member: m, duration: *duration }),
                Err(e) => Err(e),
            },
            ShopAction::SendMessage { channel: target, message } => {
                let ping = concat(&concat("<@", u64_to_string(author).as_str()), ">");
                proof {
                    reveal_strlit("<AuthorPing>");
                }
                assert(ping@ =~= author_ping(author));
                let text = replace_str(message.as_str(), "<AuthorPing>", ping.as_str());
                match target {
                    Replacement::Channel(c) => Ok(ActionRun::SendMessage { channel: *c, message: text }),
                    Replacement::Nothing => Ok(ActionRun::SendMessage { channel, message: text }),
                    _ => Err(String::from_str("the action's target was not resolved")),
                }
            },
        }
    }
}

/// The name of an action's kind in shop files.
pub open spec fn kind_name(a: ShopAction) -> Seq<char> {
    match a {
        ShopAction::GiveRoles { .. } => "giveRoles"@,
        ShopAction::RemoveRoles { .. } => "removeRoles"@,
        ShopAction::SendMessage { .. } => "sendMessage"@,
        ShopAction::Mute { .. } => "mute"@,
    }
}

/// The line logged when an action of page `page` failed with `error`.
pub open spec fn failure_line(a: ShopAction, page: Seq<char>, error: Seq<char>) -> Seq<char> {
    "error while call "@ + kind_name(a) + " shop action in page \""@ + page + "\": "@ + error
}

impl ShopAction {
    /// The line logged when this action of page `page` failed with
    /// `error` (see `failure_line`).
    pub fn failure_report(&self, page: &str, error: &str) -> (r: String)
        ensures
            r@ == failure_line(*self, page@, error@),
    {
        let kind = match self {
            ShopAction::GiveRoles { .. } => "giveRoles",
            ShopAction::RemoveRoles { .. } => "removeRoles",
            ShopAction::SendMessage { .. } => "sendMessage",
            ShopAction::Mute { .. } => "mute",
        };
        let r = concat(
            &concat(&concat("error while call ", kind), &concat(" shop action in page \"", page)),
            &concat("\": ", error),
        );
        assert(r@ =~= failure_line(*self, page@, error@));
        r
    }
}

/// An action that resolved when the shop was loaded (see
/// `ShopAction::convert`) runs whenever the buyer is a guild member: its
/// member or channel is named by id, or is the buyer or the channel of the
/// purchase.
pub proof fn law_resolved_action_runs(
    a: ShopAction,
    shop: ShopManager,
    entries: Map<Seq<char>, Seq<char>>,
    text: Seq<char>,
    b: ShopAction,
    buyer: u64,
    author: u64,
    channel: u64,
)
    requires
        resolved_action(a, shop, entries) is Ok,
        with_message(b, resolved_action(a, shop, entries)->Ok_0, text),
    ensures
        planned(b, Some(buyer), author, channel) is Ok,
{
}


/// Whether `runs` is what buying runs for `actions`, one entry per action
/// in order: its plan (see `planned`), or why it cannot run.
pub open spec fn runs_for(runs: Seq<Result<ActionRun, String>>, actions: Seq<ShopAction>, buyer: Option<u64>, author: u64, channel: u64) -> bool {
    &&& runs.len() == actions.len()
    &&& forall|i: int| 0 <= i < actions.len() ==> match (#[trigger] runs[i], planned(actions[i], buyer, author, channel)) {
        (Ok(a), Ok(b)) => a@ == b,
        (Err(a), Err(b)) => a@ == b,
        _ => false,
    }
}

impl Page {
    /// Buys this page for `member` (see `Page::buy`): when they cannot pay,
    /// `None` and nothing changes.  Otherwise the price is taken and what
    /// each action of the page runs is returned, once per action and in
    /// order; an action that cannot run (an `Err` entry, to be logged with
    /// `failure_report`) keeps neither the later actions nor the charge
    /// from happening.  `buyer` is the buyer as a guild member, if they are
    /// one, `author` who bought, and `channel` where.
    pub fn purchase(&self, member: &mut ProjectMember, buyer: Option<u64>, author: u64, channel: u64) -> (r: Option<Vec<Result<ActionRun, String>>>)
        requires
            old(member).score >= self.price ==> self.price > i64::MIN && old(member).score - self.price
                <= i64::MAX && (-self.price > 0 ==> old(member).all_time_score - self.price <= i64::MAX),
        ensures
            r is Some <==> old(member).score >= self.price,
            r is None ==> *final(member) == *old(member),
            r matches Some(runs) ==> runs_for(runs@, self.on_buy@, buyer, author, channel)
                && final(member).score == old(member).score - self.price
                && final(member).all_time_score == if self.price < 0 {
                    old(member).all_time_score - self.price
                } else {
                    old(member).all_time_score as int
                },
            final(member).id == old(member).id,
            final(member).in_tasks@ == old(member).in_tasks@,
            final(member).notes == old(member).notes,
            final(member).warns == old(member).warns,
            final(member).shop_data == old(member).shop_data,
    {
        if member.score < self.price {
            return None;
        }
        let mut runs: Vec<Result<ActionRun, String>> = Vec::new();
        let mut i: usize = 0;
        while i < self.on_buy.len()
            invariant
                i <= self.on_buy@.len(),
                runs@.len() == i,
                forall|j: int| 0 <= j < i ==> match (#[trigger] runs@[j], planned(self.on_buy@[j], buyer, author, channel)) {
                    (Ok(a), Ok(b)) => a@ == b,
                    (Err(a), Err(b)) => a@ == b,
                    _ => false,
                },
            decreases self.on_buy@.len() - i,
        {
            runs.push(self.on_buy[i].plan(buyer, author, channel));
            i = i + 1;
        }
        let bought = self.buy(member);
        assert(bought);
        Some(runs)
    }
}
} // verus!
