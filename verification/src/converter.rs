//! Records of the old data format and their conversion to the current
//! records.  Old notes and warnings are free texts of the form
//! `<@user> (date): **text**`, which are read back into their parts.
use vstd::prelude::*;
use crate::maps::{IdMap, NameMap};
use crate::member::{list_of, NotesHistory, ProjectMember, TaskHistory};
use crate::project::Project;
use crate::shop::ShopData;
use crate::tag::{TageTypes, TaskTag};
use crate::task::{Task, TaskOption};
use crate::text::{
    chars_of, parse_u64, parsed_integer, push_all, split, split_chars, split_str, string_of,
    strip_prefix, strip_prefix_chars, strip_suffix, strip_suffix_chars,
};

verus! {

// ---------------------------------------------------------------------------
// Dates
// ---------------------------------------------------------------------------
/// The time (seconds since 1970, UTC) that an RFC 3339 text denotes, if it
/// is one.
pub uninterp spec fn rfc3339_time(text: Seq<char>) -> Option<i64>;

/// `chrono::DateTime::parse_from_rfc3339`, then `timestamp`.
#[verifier::external_body]
fn parse_rfc3339(text: &str) -> (r: Option<i64>)
    ensures
        r == rfc3339_time(text@),
{
    chrono::DateTime::parse_from_rfc3339(text).ok().map(|d| d.timestamp())
}

/// An old date (`year-month-day`) as the RFC 3339 text of its midnight.
pub open spec fn midnight(date: Seq<char>) -> Seq<char> {
    date + "T00:00:00Z"@
}

/// The time of midnight UTC of an old date, if the date reads as one.
pub open spec fn old_date(date: Seq<char>) -> Option<i64> {
    rfc3339_time(midnight(date))
}

fn read_old_date(date: &str) -> (r: Option<i64>)
    ensures
        r == old_date(date@),
{
    let mut v = chars_of(date);
    push_all(&mut v, &chars_of("T00:00:00Z"));
    let text = string_of(&v);
    parse_rfc3339(text.as_str())
}

/// Reads an old date (see `old_date`); `None` when it does not read.
pub fn convert_old_date(date: &str) -> (r: Option<i64>)
    ensures
        r == old_date(date@),
{
    read_old_date(date)
}

// ---------------------------------------------------------------------------
// Notes and warnings
// ---------------------------------------------------------------------------
/// The writer of an old note: the first word, which must read `<@id>` with
/// a nonzero id.
pub open spec fn old_note_user(note: Seq<char>) -> Option<u64> {
    match strip_prefix(split(note, " "@)[0], "<@"@) {
        Some(rest) => match strip_suffix(rest, ">"@) {
            Some(digits) => match parsed_integer(digits, false) {
                Some(v) => if 0 < v <= u64::MAX {
                    Some(v as u64)
                } else {
                    None
                },
                None => None,
            },
            None => None,
        },
        None => None,
    }
}

/// The date text of an old note: what precedes `date_end` (the first
/// time), after the last `> (` there.
pub open spec fn old_note_date(note: Seq<char>, date_end: Seq<char>) -> Seq<char> {
    split(split(note, date_end)[0], "> ("@).last()
}

/// The text of an old note: what follows its last `): **`, which must end
/// with `**` (dropped).
pub open spec fn old_note_text(note: Seq<char>) -> Option<Seq<char>> {
    strip_suffix(split(note, "): **"@).last(), "**"@)
}

/// What an old note or warning says (writer, time, text), when it is well
/// formed; `date_end` is the text that follows its date.
pub open spec fn old_note(note: Seq<char>, date_end: Seq<char>) -> Option<(u64, i64, Seq<char>)> {
    match (old_note_user(note), old_date(old_note_date(note, date_end)), old_note_text(note)) {
        (Some(u), Some(t), Some(s)) => Some((u, t, s)),
        _ => None,
    }
}

/// What follows the date of an old note.
pub open spec fn note_date_end() -> Seq<char> {
    "): **"@
}

/// What follows the date of an old warning.
pub open spec fn warn_date_end() -> Seq<char> {
    "): **П."@
}

/// `h` is the note that `old_note` reads from an old text.
pub open spec fn is_note(h: NotesHistory, parts: Option<(u64, i64, Seq<char>)>) -> bool {
    match (h, parts) {
        (NotesHistory::Current(u, t, s), Some(p)) => u == p.0 && t == p.1 && s@ == p.2,
        _ => false,
    }
}

fn last_piece(s: &Vec<char>, sep: &Vec<char>) -> (r: Vec<char>)
    requires
        sep@.len() > 0,
    ensures
        r@ == split(s@, sep@).last(),
{
    let parts = split_chars(s, sep);
    let last = parts.len() - 1;
    proof {
        assert(parts@.map_values(|x: Vec<char>| x@)[last as int] == parts@[last as int]@);
    }
    let mut out: Vec<char> = Vec::new();
    push_all(&mut out, &parts[last]);
    out
}

fn first_piece(s: &Vec<char>, sep: &Vec<char>) -> (r: Vec<char>)
    requires
        sep@.len() > 0,
    ensures
        r@ == split(s@, sep@)[0],
{
    let parts = split_chars(s, sep);
    proof {
        assert(parts@.map_values(|x: Vec<char>| x@)[0] == parts@[0]@);
    }
    let mut out: Vec<char> = Vec::new();
    push_all(&mut out, &parts[0]);
    out
}

/// Reads an old note or warning (see `old_note`).
pub fn convert_old_note(note: &str, date_end: &str) -> (r: Option<NotesHistory>)
    requires
        date_end@.len() > 0,
    ensures
        match r {
            Some(h) => is_note(h, old_note(note@, date_end@)),
            None => old_note(note@, date_end@) is None,
        },
{
    proof {
        reveal_strlit(" ");
        reveal_strlit("<@");
        reveal_strlit(">");
        reveal_strlit("> (");
        reveal_strlit("): **");
        reveal_strlit("**");
    }
    let v = chars_of(note);
    let word = first_piece(&v, &chars_of(" "));
    let user = match strip_prefix_chars(&word, &chars_of("<@")) {
        Some(rest) => match strip_suffix_chars(&rest, &chars_of(">")) {
            Some(digits) => match parse_u64(string_of(&digits).as_str()) {
                Some(n) => if n > 0 {
                    Some(n)
                } else {
                    None
                },
                None => None,
            },
            None => None,
        },
        None => None,
    };
    let head = first_piece(&v, &chars_of(date_end));
    let date = last_piece(&head, &chars_of("> ("));
    let time = read_old_date(string_of(&date).as_str());
    let tail = last_piece(&v, &chars_of("): **"));
    let text = strip_suffix_chars(&tail, &chars_of("**"));
    match (user, time, text) {
        (Some(u), Some(t), Some(s)) => Some(NotesHistory::Current(u, t, string_of(&s))),
        _ => None,
    }
}

// ---------------------------------------------------------------------------
// Tags, tasks and projects
// ---------------------------------------------------------------------------
/// A forum tag in the old format.
pub struct OldTaskTag {
    pub id: Option<u64>,
    pub forum_id: Option<u64>,
    pub tag_type: String,
    pub max_members: Option<u32>,
    pub score_modifier: Option<i64>,
    pub ping_role: Option<u64>,
}

/// The tag type that an old type name stands for.
pub open spec fn old_tag_type(name: Seq<char>) -> TageTypes {
    if name == "ended_tag"@ {
        TageTypes::ClosedTask
    } else if name == "in_work_tag"@ {
        TageTypes::InWork
    } else {
        TageTypes::Base
    }
}

fn eq_str(a: &str, b: &str) -> (r: bool)
    ensures
        r == (a@ == b@),
{
    let x = chars_of(a);
    let y = chars_of(b);
    if x.len() != y.len() {
        return false;
    }
    let mut i: usize = 0;
    while i < x.len()
        invariant
            i <= x@.len(),
            x@ == a@,
            y@ == b@,
            x@.len() == y@.len(),
            forall|j: int| 0 <= j < i ==> x@[j] == y@[j],
        decreases x@.len() - i,
    {
        if x[i] != y[i] {
            assert(x@[i as int] != y@[i as int]);
            assert(x@ != y@);
            return false;
        }
        i = i + 1;
    }
    assert(x@ =~= y@);
    true
}

impl OldTaskTag {
    /// The tag in the current format: its type read from the old name,
    /// no project.  The old record must name its tag and forum.
    pub fn into(self) -> (t: TaskTag)
        requires
            self.id is Some,
            self.forum_id is Some,
        ensures
            t.id == self.id->0,
            t.forum_id == self.forum_id->0,
            t.tag_type == Some(old_tag_type(self.tag_type@)),
            t.max_members == self.max_members,
            t.score_modifier == self.score_modifier,
            t.task_project is None,
            t.ping_role == self.ping_role,
    {
        proof {
            reveal_strlit("ended_tag");
            reveal_strlit("in_work_tag");
        }
        let tag_type = if eq_str(self.tag_type.as_str(), "ended_tag") {
            TageTypes::ClosedTask
        } else if eq_str(self.tag_type.as_str(), "in_work_tag") {
            TageTypes::InWork
        } else {
            TageTypes::Base
        };
        TaskTag {
            id: self.id.unwrap(),
            forum_id: self.forum_id.unwrap(),
            tag_type: Some(tag_type),
            max_members: self.max_members,
            score_modifier: self.score_modifier,
            task_project: None,
            ping_role: self.ping_role,
        }
    }
}

/// A task in the old format.
pub struct OldTask {
    pub id: Option<u32>,
    pub project: Option<String>,
    pub score: i64,
    pub name: String,
    pub thread_id: u64,
    pub mentor_id: Option<u64>,
    pub members: Vec<u64>,
    pub start_date: String,
    pub last_save: Option<String>,
    pub max_members: u32,
    pub _max_members: Option<u32>,
}

impl OldTask {
    /// Whether the old task converts: it names its id and project and its
    /// start date reads.
    pub open spec fn convertible(&self) -> bool {
        self.id is Some && self.project is Some && old_date(self.start_date@) is Some
    }

    /// The task in the current format, open, its settings recorded at
    /// `now`; the overriding member limit wins over the plain one.
    pub fn into(self, now: i64) -> (t: Task)
        requires
            self.convertible(),
        ensures
            t.id == self.id->0,
            t.project@ == self.project->0@,
            t.thread_id == self.thread_id,
            !t.finished,
            t.name.value() == self.name@,
            t.score.value() == self.score,
            t.max_members.value() == match self._max_members {
                Some(m) => m,
                None => self.max_members,
            },
            t.mentor_id.value() == self.mentor_id,
            t.member_seq() == self.members@,
            t.start_date == old_date(self.start_date@),
            t.end_date.value() == None::<i64>,
            t.last_save.value() == self.last_save,
    {
        let start = read_old_date(self.start_date.as_str());
        let max = match self._max_members {
            Some(m) => m,
            None => self.max_members,
        };
        Task {
            id: self.id.unwrap(),
            project: self.project.unwrap(),
            thread_id: self.thread_id,
            finished: false,
            name: TaskOption::new(self.name, now),
            score: TaskOption::new(self.score, now),
            max_members: TaskOption::new(max, now),
            mentor_id: TaskOption::new(self.mentor_id, now),
            members: TaskOption::new(self.members, now),
            start_date: start,
            end_date: TaskOption::new(None, now),
            last_save: TaskOption::new(self.last_save, now),
        }
    }

    /// The task in the current format, or `None` when the old task does not
    /// convert (see `convertible`).
    pub fn try_into(self, now: i64) -> (r: Option<Task>)
        ensures
            r is Some <==> self.convertible(),
            r matches Some(t) ==> t.id == self.id->0 && t.project@ == self.project->0@
                && t.member_seq() == self.members@ && t.start_date == old_date(self.start_date@),
    {
        if self.id.is_none() || self.project.is_none() {
            return None;
        }
        match read_old_date(self.start_date.as_str()) {
            Some(_) => Some(self.into(now)),
            None => None,
        }
    }
}

/// A project in the old format, with its tags and tasks.
pub struct OldProject {
    pub name: Option<String>,
    pub max_tasks_per_user: u32,
    pub tasks_forum: u64,
    pub waiter_role: Option<u64>,
    pub stat_posts: Vec<(u64, u64)>,
    pub stat_channel: Option<u64>,
    pub associated_roles: Vec<u64>,
    pub tags: Vec<(u64, OldTaskTag)>,
    pub tasks: Vec<(u32, OldTask)>,
}

/// The map that a list of pairs denotes, a later pair winning.
pub open spec fn pairs_map(pairs: Seq<(u64, u64)>) -> Map<u64, u64>
    decreases pairs.len(),
{
    if pairs.len() == 0 {
        Map::empty()
    } else {
        pairs_map(pairs.drop_last()).insert(pairs.last().0, pairs.last().1)
    }
}

impl OldProject {
    /// The project in the current format; its tags and tasks are converted
    /// on their own.  The old record must name the project.
    pub fn into(self) -> (p: Project)
        requires
            self.name is Some,
        ensures
            p.name == self.name->0,
            p.max_tasks_per_user == self.max_tasks_per_user,
            p.tasks_forum == self.tasks_forum,
            p.waiter_role == self.waiter_role,
            p.stat_posts@ == pairs_map(self.stat_posts@),
            p.stat_channel == self.stat_channel,
            p.associated_roles == self.associated_roles,
    {
        let mut posts: IdMap<u64> = IdMap::new();
        let mut i: usize = 0;
        assert(self.stat_posts@.subrange(0, 0) =~= Seq::<(u64, u64)>::empty());
        while i < self.stat_posts.len()
            invariant
                i <= self.stat_posts@.len(),
                posts@ == pairs_map(self.stat_posts@.subrange(0, i as int)),
            decreases self.stat_posts@.len() - i,
        {
            let (role, message) = self.stat_posts[i];
            proof {
                assert(self.stat_posts@.subrange(0, i + 1).drop_last() =~= self.stat_posts@.subrange(0, i as int));
            }
            posts.insert(role, message);
            i = i + 1;
        }
        assert(self.stat_posts@.subrange(0, self.stat_posts@.len() as int) =~= self.stat_posts@);
        Project {
            name: self.name.unwrap(),
            max_tasks_per_user: self.max_tasks_per_user,
            tasks_forum: self.tasks_forum,
            waiter_role: self.waiter_role,
            stat_posts: posts,
            stat_channel: self.stat_channel,
            associated_roles: self.associated_roles,
        }
    }
}

// ---------------------------------------------------------------------------
// Members
// ---------------------------------------------------------------------------
/// A member record in the old format.
pub struct OldProjectMember {
    pub id: Option<u64>,
    pub done_tasks: Option<Vec<(String, Vec<String>)>>,
    pub mentor_tasks: Option<Vec<(String, Vec<String>)>>,
    pub own_folder: Option<String>,
    pub score: Option<i64>,
    pub all_time_score: Option<i64>,
    pub warns: Option<Vec<String>>,
    pub notes: Option<Vec<String>>,
    pub last_activity: Option<Vec<(String, String)>>,
    pub ckey: Option<String>,
}

/// The task texts of old task lists, by project, the lists of a project
/// named twice joined in order.
pub open spec fn old_lists(entries: Seq<(String, Vec<String>)>) -> Map<Seq<char>, Seq<Seq<char>>>
    decreases entries.len(),
{
    if entries.len() == 0 {
        Map::empty()
    } else {
        let m = old_lists(entries.drop_last());
        let k = entries.last().0@;
        let before = if m.dom().contains(k) {
            m[k]
        } else {
            Seq::empty()
        };
        m.insert(k, before + entries.last().1@.map_values(|t: String| t@))
    }
}

/// `h` holds, by project, the old-format entries whose texts `m` lists.
pub open spec fn histories_match(h: Map<Seq<char>, Vec<TaskHistory>>, m: Map<Seq<char>, Seq<Seq<char>>>) -> bool {
    &&& h.dom() == m.dom()
    &&& forall|k: Seq<char>| #[trigger] h.dom().contains(k) ==> h[k]@.len() == m[k].len()
    &&& forall|k: Seq<char>, i: int| h.dom().contains(k) && 0 <= i < m[k].len() ==> (#[trigger] h[k]@[i] matches TaskHistory::OldFormat(t) && t@ == m[k][i])
}

/// The last activity by project: each entry whose date reads sets it, a
/// later entry winning.
pub open spec fn old_activity(entries: Seq<(String, String)>) -> Map<Seq<char>, i64>
    decreases entries.len(),
{
    if entries.len() == 0 {
        Map::empty()
    } else {
        let m = old_activity(entries.drop_last());
        match old_date(entries.last().1@) {
            Some(t) => m.insert(entries.last().0@, t),
            None => m,
        }
    }
}

/// `converted` holds what `old_note` reads from each of `old`, in order.
pub open spec fn notes_match(converted: Seq<NotesHistory>, old: Seq<String>, date_end: Seq<char>) -> bool {
    &&& converted.len() == old.len()
    &&& forall|i: int| 0 <= i < old.len() ==> is_note(#[trigger] converted[i], old_note(old[i]@, date_end))
}

/// Every one of `old` reads as a note (see `old_note`).
pub open spec fn all_notes_read(old: Seq<String>, date_end: Seq<char>) -> bool {
    forall|i: int| 0 <= i < old.len() ==> (#[trigger] old_note(old[i]@, date_end)) is Some
}

/// The entries of an optional list, none when absent.
pub open spec fn entries_of<T>(o: Option<Vec<T>>) -> Seq<T> {
    match o {
        Some(v) => v@,
        None => Seq::empty(),
    }
}

fn convert_lists(entries: &Vec<(String, Vec<String>)>) -> (r: NameMap<Vec<TaskHistory>>)
    ensures
        histories_match(r@, old_lists(entries@)),
{
    let mut out: NameMap<Vec<TaskHistory>> = NameMap::new();
    let mut i: usize = 0;
    assert(entries@.subrange(0, 0) =~= Seq::<(String, Vec<String>)>::empty());
    while i < entries.len()
        invariant
            i <= entries@.len(),
            histories_match(out@, old_lists(entries@.subrange(0, i as int))),
        decreases entries@.len() - i,
    {
        let ghost prev = old_lists(entries@.subrange(0, i as int));
        let ghost before_out = out@;
        proof {
            assert(entries@.subrange(0, i + 1).drop_last() =~= entries@.subrange(0, i as int));
            assert(entries@.subrange(0, i + 1).last() == entries@[i as int]);
        }
        let key = &entries[i].0;
        let tasks = &entries[i].1;
        let ghost k = key@;
        let ghost start = if prev.dom().contains(k) {
            prev[k]
        } else {
            Seq::<Seq<char>>::empty()
        };
        let mut list = match out.remove(key) {
            Some(l) => l,
            None => Vec::new(),
        };
        let mut j: usize = 0;
        while j < tasks.len()
            invariant
                j <= tasks@.len(),
                list@.len() == start.len() + j,
                forall|a: int| 0 <= a < start.len() ==> (#[trigger] list@[a] matches TaskHistory::OldFormat(t) && t@ == start[a]),
                forall|a: int| 0 <= a < j ==> (#[trigger] list@[start.len() + a] matches TaskHistory::OldFormat(t) && t@ == tasks@[a]@),
            decreases tasks@.len() - j,
        {
            list.push(TaskHistory::OldFormat(tasks[j].clone()));
            j = j + 1;
        }
        out.insert(key.clone(), list);
        proof {
            let now = old_lists(entries@.subrange(0, i + 1));
            let added = tasks@.map_values(|t: String| t@);
            assert(now == prev.insert(k, start + added));
            assert(out@ == before_out.remove(k).insert(k, list));
            assert(out@.dom() =~= now.dom());
            assert forall|kk: Seq<char>, a: int| out@.dom().contains(kk) && 0 <= a < now[kk].len()
                implies (#[trigger] out@[kk]@[a] matches TaskHistory::OldFormat(t) && t@ == now[kk][a]) by {
                if kk == k {
                    if a >= start.len() {
                        let b = a - start.len();
                        assert(list@[start.len() + b] == list@[a]);
                        assert(added[b] == tasks@[b]@);
                    }
                } else {
                    assert(out@[kk] == before_out[kk]);
                }
            }
            assert forall|kk: Seq<char>| #[trigger] out@.dom().contains(kk) implies out@[kk]@.len() == now[kk].len() by {
                if kk != k {
                    assert(out@[kk] == before_out[kk]);
                }
            }
        }
        i = i + 1;
    }
    assert(entries@.subrange(0, entries@.len() as int) =~= entries@);
    out
}

fn convert_activity(entries: &Vec<(String, String)>) -> (r: NameMap<i64>)
    ensures
        r@ == old_activity(entries@),
{
    let mut out: NameMap<i64> = NameMap::new();
    let mut i: usize = 0;
    assert(entries@.subrange(0, 0) =~= Seq::<(String, String)>::empty());
    while i < entries.len()
        invariant
            i <= entries@.len(),
            out@ == old_activity(entries@.subrange(0, i as int)),
        decreases entries@.len() - i,
    {
        proof {
            assert(entries@.subrange(0, i + 1).drop_last() =~= entries@.subrange(0, i as int));
            assert(entries@.subrange(0, i + 1).last() == entries@[i as int]);
        }
        match read_old_date(entries[i].1.as_str()) {
            Some(t) => {
                out.insert(entries[i].0.clone(), t);
            },
            None => {},
        }
        i = i + 1;
    }
    assert(entries@.subrange(0, entries@.len() as int) =~= entries@);
    out
}

fn convert_notes(old: &Vec<String>, date_end: &str) -> (r: Vec<NotesHistory>)
    requires
        date_end@.len() > 0,
        all_notes_read(old@, date_end@),
    ensures
        notes_match(r@, old@, date_end@),
{
    let mut out: Vec<NotesHistory> = Vec::new();
    let mut i: usize = 0;
    while i < old.len()
        invariant
            i <= old@.len(),
            date_end@.len() > 0,
            all_notes_read(old@, date_end@),
            out@.len() == i,
            forall|a: int| 0 <= a < i ==> is_note(#[trigger] out@[a], old_note(old@[a]@, date_end@)),
        decreases old@.len() - i,
    {
        assert(old_note(old@[i as int]@, date_end@) is Some);
        match convert_old_note(old[i].as_str(), date_end) {
            Some(n) => {
                out.push(n);
            },
            None => {
                assert(false);
            },
        }
        i = i + 1;
    }
    out
}

fn try_convert_notes(old: &Vec<String>, date_end: &str) -> (r: Option<Vec<NotesHistory>>)
    requires
        date_end@.len() > 0,
    ensures
        r is Some <==> all_notes_read(old@, date_end@),
        r matches Some(v) ==> notes_match(v@, old@, date_end@),
{
    let mut i: usize = 0;
    while i < old.len()
        invariant
            i <= old@.len(),
            date_end@.len() > 0,
            forall|a: int| 0 <= a < i ==> (#[trigger] old_note(old@[a]@, date_end@)) is Some,
        decreases old@.len() - i,
    {
        if convert_old_note(old[i].as_str(), date_end).is_none() {
            return None;
        }
        i = i + 1;
    }
    Some(convert_notes(old, date_end))
}

impl OldProjectMember {
    /// Whether the old record converts: it names the member, and every
    /// note and warning reads (see `old_note`).
    pub open spec fn convertible(&self) -> bool {
        &&& self.id is Some
        &&& all_notes_read(entries_of(self.notes), note_date_end())
        &&& all_notes_read(entries_of(self.warns), warn_date_end())
    }

    /// The record in the current format: the old task texts kept as they
    /// are, the dates that read as last activity, notes and warnings read
    /// back into their parts, and missing scores taken as 0.
    pub fn into(self) -> (m: ProjectMember)
        requires
            self.convertible(),
        ensures
            m.id == self.id->0,
            m.in_tasks@ == Map::<Seq<char>, Vec<u32>>::empty(),
            histories_match(m.done_tasks@, old_lists(entries_of(self.done_tasks))),
            histories_match(m.mentor_tasks@, old_lists(entries_of(self.mentor_tasks))),
            m.own_folder == self.own_folder,
            m.score == match self.score {
                Some(s) => s,
                None => 0,
            },
            m.all_time_score == match self.all_time_score {
                Some(s) => s,
                None => 0,
            },
            m.last_activity@ == old_activity(entries_of(self.last_activity)),
            notes_match(m.notes@, entries_of(self.notes), note_date_end()),
            notes_match(m.warns@, entries_of(self.warns), warn_date_end()),
            m.shop_data.current_page == 0,
            m.shop_data.pages@.len() == 0,
            m.changed_member is None,
            m.changed_task is None,
            m.changed_project is None,
            m.changed_tag is None,
            m.changed_sub_post is None,
    {
        proof {
            reveal_strlit("): **");
            reveal_strlit("): **П.");
        }
        let empty_lists: Vec<(String, Vec<String>)> = Vec::new();
        let empty_pairs: Vec<(String, String)> = Vec::new();
        let empty_notes: Vec<String> = Vec::new();
        let done = convert_lists(match &self.done_tasks {
            Some(v) => v,
            None => &empty_lists,
        });
        let mentor = convert_lists(match &self.mentor_tasks {
            Some(v) => v,
            None => &empty_lists,
        });
        let activity = convert_activity(match &self.last_activity {
            Some(v) => v,
            None => &empty_pairs,
        });
        let notes = convert_notes(match &self.notes {
            Some(v) => v,
            None => &empty_notes,
        }, "): **");
        let warns = convert_notes(match &self.warns {
            Some(v) => v,
            None => &empty_notes,
        }, "): **П.");
        ProjectMember {
            id: self.id.unwrap(),
            in_tasks: NameMap::new(),
            done_tasks: done,
            mentor_tasks: mentor,
            own_folder: self.own_folder,
            score: match self.score {
                Some(s) => s,
                None => 0,
            },
            all_time_score: match self.all_time_score {
                Some(s) => s,
                None => 0,
            },
            last_activity: activity,
            warns,
            notes,
            shop_data: ShopData::default(),
            changed_member: None,
            changed_task: None,
            changed_project: None,
            changed_tag: None,
            changed_sub_post: None,
        }
    }

    /// The record in the current format, or `None` when the old record does
    /// not convert (see `convertible`).
    pub fn try_into(self) -> (r: Option<ProjectMember>)
        ensures
            r is Some <==> self.convertible(),
            r matches Some(m) ==> m.id == self.id->0 && notes_match(m.notes@, entries_of(self.notes), note_date_end())
                && notes_match(m.warns@, entries_of(self.warns), warn_date_end()),
    {
        proof {
            reveal_strlit("): **");
            reveal_strlit("): **П.");
        }
        if self.id.is_none() {
            return None;
        }
        let empty_notes: Vec<String> = Vec::new();
        let notes_ok = try_convert_notes(match &self.notes {
            Some(v) => v,
            None => &empty_notes,
        }, "): **").is_some();
        let warns_ok = try_convert_notes(match &self.warns {
            Some(v) => v,
            None => &empty_notes,
        }, "): **П.").is_some();
        if notes_ok && warns_ok {
            Some(self.into())
        } else {
            None
        }
    }
}

// ---------------------------------------------------------------------------
// Running tasks from old tasks
// ---------------------------------------------------------------------------
/// How many times `x` occurs in `s`.
pub open spec fn occurrences(s: Seq<u64>, x: u64) -> nat
    decreases s.len(),
{
    if s.len() == 0 {
        0
    } else {
        occurrences(s.drop_last(), x) + if s.last() == x {
            1nat
        } else {
            0nat
        }
    }
}

/// The running tasks of `member` among old tasks given as (id, project,
/// members), by project: each task once for each time it lists the
/// member; a project appears only when some task of it lists the member.
pub open spec fn old_running(tasks: Seq<(u32, String, Vec<u64>)>, member: u64) -> Map<Seq<char>, Seq<u32>>
    decreases tasks.len(),
{
    if tasks.len() == 0 {
        Map::empty()
    } else {
        let m = old_running(tasks.drop_last(), member);
        let (id, project, members) = tasks.last();
        let c = occurrences(members@, member);
        if c == 0 {
            m
        } else {
            let before = if m.dom().contains(project@) {
                m[project@]
            } else {
                Seq::empty()
            };
            m.insert(project@, before + Seq::new(c, |i: int| id))
        }
    }
}

/// The running tasks of `member` (see `old_running`).
pub fn old_running_tasks(tasks: &Vec<(u32, String, Vec<u64>)>, member: u64) -> (r: NameMap<Vec<u32>>)
    ensures
        r@.dom() == old_running(tasks@, member).dom(),
        forall|k: Seq<char>| #[trigger] r@.dom().contains(k) ==> r@[k]@ == old_running(tasks@, member)[k],
{
    let mut out: NameMap<Vec<u32>> = NameMap::new();
    let mut i: usize = 0;
    assert(tasks@.subrange(0, 0) =~= Seq::<(u32, String, Vec<u64>)>::empty());
    while i < tasks.len()
        invariant
            i <= tasks@.len(),
            out@.dom() == old_running(tasks@.subrange(0, i as int), member).dom(),
            forall|k: Seq<char>| #[trigger] out@.dom().contains(k) ==> out@[k]@ == old_running(tasks@.subrange(0, i as int), member)[k],
        decreases tasks@.len() - i,
    {
        proof {
            assert(tasks@.subrange(0, i + 1).drop_last() =~= tasks@.subrange(0, i as int));
            assert(tasks@.subrange(0, i + 1).last() == tasks@[i as int]);
        }
        let id = tasks[i].0;
        let project = &tasks[i].1;
        let members = &tasks[i].2;
        let ghost prev = old_running(tasks@.subrange(0, i as int), member);
        let mut added: Vec<u32> = Vec::new();
        let mut j: usize = 0;
        assert(members@.subrange(0, 0) =~= Seq::<u64>::empty());
        while j < members.len()
            invariant
                j <= members@.len(),
                added@ == Seq::new(occurrences(members@.subrange(0, j as int), member), |x: int| id),
            decreases members@.len() - j,
        {
            proof {
                assert(members@.subrange(0, j + 1).drop_last() =~= members@.subrange(0, j as int));
            }
            if members[j] == member {
                added.push(id);
            }
            proof {
                assert(added@ =~= Seq::new(occurrences(members@.subrange(0, j + 1), member), |x: int| id));
            }
            j = j + 1;
        }
        assert(members@.subrange(0, members@.len() as int) =~= members@);
        if added.len() > 0 {
            let mut list = match out.remove(project) {
                Some(l) => l,
                None => Vec::new(),
            };
            let ghost before = list@;
            list.append(&mut added);
            let ghost lv = list@;
            out.insert(project.clone(), list);
            proof {
                let now = old_running(tasks@.subrange(0, i + 1), member);
                assert(out@.dom() =~= now.dom());
                assert forall|k: Seq<char>| #[trigger] out@.dom().contains(k) implies out@[k]@ == now[k] by {
                    if k == project@ {
                        assert(lv =~= now[k]);
                    }
                }
            }
        } else {
            proof {
                let now = old_running(tasks@.subrange(0, i + 1), member);
                assert(now == prev);
            }
        }
        i = i + 1;
    }
    assert(tasks@.subrange(0, tasks@.len() as int) =~= tasks@);
    out
}

} // verus!
