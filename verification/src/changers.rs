//! What the tag and project editors do with what a moderator picks or
//! types.
use vstd::prelude::*;
use crate::member::{lemma_remove_first_keeps, lemma_remove_first_unique, remove_first};
use crate::project::Project;
use crate::shop::vec_contains_u64;
use crate::tag::{tag_type_name, TageTypes, TaskTag};
use crate::task::{Dup, Task};
use crate::text::{chars_of, concat, parse_i64, parse_u32, parsed_integer};

verus! {

/// The tag type that a picked name stands for (the names of
/// `TageTypes::to_string`); `None` for any other name.
pub open spec fn tag_type_named(name: Seq<char>) -> Option<TageTypes> {
    if name == "base"@ {
        Some(TageTypes::Base)
    } else if name == "closedtask"@ {
        Some(TageTypes::ClosedTask)
    } else if name == "inwork"@ {
        Some(TageTypes::InWork)
    } else {
        None
    }
}

pub(crate) fn same_text(a: &str, b: &str) -> (r: bool)
    ensures
        r == (a@ == b@),
{
    let x = chars_of(a);
    let y = chars_of(b);
    if x.len() != y.len() {
        return false;
    }
    let mut i: usize = 0;
    while i < x.len()
        invariant
            i <= x@.len(),
            x@ == a@,
            y@ == b@,
            x@.len() == y@.len(),
            forall|j: int| 0 <= j < i ==> x@[j] == y@[j],
        decreases x@.len() - i,
    {
        if x[i] != y[i] {
            assert(x@[i as int] != y@[i as int]);
            return false;
        }
        i = i + 1;
    }
    assert(x@ =~= y@);
    true
}

/// The tag type named `name` (see `tag_type_named`).
pub fn tag_type_from_name(name: &str) -> (r: Option<TageTypes>)
    ensures
        r == tag_type_named(name@),
{
    proof {
        reveal_strlit("base");
        reveal_strlit("closedtask");
        reveal_strlit("inwork");
    }
    if same_text(name, "base") {
        Some(TageTypes::Base)
    } else if same_text(name, "closedtask") {
        Some(TageTypes::ClosedTask)
    } else if same_text(name, "inwork") {
        Some(TageTypes::InWork)
    } else {
        None
    }
}

/// The type a tag ends with after the type names `picks` are applied in
/// turn: none when nothing is picked, otherwise what the last pick names.
pub open spec fn picked_tag_type(picks: Seq<String>, current: Option<TageTypes>) -> Option<TageTypes> {
    if picks.len() == 0 {
        None
    } else {
        tag_type_named(picks.last()@)
    }
}

/// A member limit typed as text: the number, or none when it is not one.
pub open spec fn typed_limit(text: Seq<char>) -> Option<u32> {
    match parsed_integer(text, false) {
        Some(v) => if 0 <= v <= u32::MAX {
            Some(v as u32)
        } else {
            None
        },
        None => None,
    }
}

/// A score modifier typed as text: the number, or none when it is not one.
pub open spec fn typed_modifier(text: Seq<char>) -> Option<i64> {
    match parsed_integer(text, true) {
        Some(v) => if i64::MIN <= v <= i64::MAX {
            Some(v as i64)
        } else {
            None
        },
        None => None,
    }
}

impl TaskTag {
    /// Applies the picked type names in turn; no pick clears the type.
    pub fn pick_tag_type(&mut self, picks: &Vec<String>)
        ensures
            final(self).tag_type == picked_tag_type(picks@, old(self).tag_type),
            final(self).id == old(self).id,
            final(self).forum_id == old(self).forum_id,
            final(self).max_members == old(self).max_members,
            final(self).score_modifier == old(self).score_modifier,
            final(self).task_project == old(self).task_project,
            final(self).ping_role == old(self).ping_role,
    {
        if picks.len() == 0 {
            self.set_tag_type(None);
            return;
        }
        let mut i: usize = 0;
        while i < picks.len()
            invariant
                0 < picks@.len(),
                i <= picks@.len(),
                i > 0 ==> self.tag_type == tag_type_named(picks@[i - 1]@),
                self.id == old(self).id,
                self.forum_id == old(self).forum_id,
                self.max_members == old(self).max_members,
                self.score_modifier == old(self).score_modifier,
                self.task_project == old(self).task_project,
                self.ping_role == old(self).ping_role,
            decreases picks@.len() - i,
        {
            let t = tag_type_from_name(picks[i].as_str());
            self.set_tag_type(t);
            i = i + 1;
        }
    }

    /// Sets the member limit typed in `text`; a text that is not a number
    /// clears it.
    pub fn set_max_members_text(&mut self, text: &str)
        ensures
            final(self).max_members == typed_limit(text@),
            final(self).id == old(self).id,
            final(self).forum_id == old(self).forum_id,
            final(self).tag_type == old(self).tag_type,
            final(self).score_modifier == old(self).score_modifier,
            final(self).task_project == old(self).task_project,
            final(self).ping_role == old(self).ping_role,
    {
        let v = parse_u32(text);
        self.set_max_members(v);
    }

    /// Sets the score modifier typed in `text`; a text that is not a
    /// number clears it.
    pub fn set_score_modifier_text(&mut self, text: &str)
        ensures
            final(self).score_modifier == typed_modifier(text@),
            final(self).id == old(self).id,
            final(self).forum_id == old(self).forum_id,
            final(self).tag_type == old(self).tag_type,
            final(self).max_members == old(self).max_members,
            final(self).task_project == old(self).task_project,
            final(self).ping_role == old(self).ping_role,
    {
        let v = parse_i64(text);
        self.set_score_modifier(v);
    }
}

impl Project {
    /// Makes the associated roles the picked ones: each picked role that is
    /// missing is added, then each role not picked is removed.  Every
    /// picked role is associated afterwards, and when no role was listed
    /// twice, only picked roles are.
    pub fn pick_roles(&mut self, picks: &Vec<u64>)
        ensures
            forall|r: u64| picks@.contains(r) ==> #[trigger] final(self).associated_roles@.contains(r),
            old(self).associated_roles@.no_duplicates() ==> forall|r: u64|
                #[trigger] final(self).associated_roles@.contains(r) ==> picks@.contains(r),
            old(self).associated_roles@.no_duplicates() ==> final(self).associated_roles@.no_duplicates(),
            old(self).associated_roles@.no_duplicates() && picks@.no_duplicates() ==> final(self).associated_roles@
                == old(self).associated_roles@.filter(|r: u64| picks@.contains(r)) + picks@.filter(
                |v: u64| !old(self).associated_roles@.contains(v),
            ),
            final(self).name == old(self).name,
            final(self).tasks_forum == old(self).tasks_forum,
            final(self).max_tasks_per_user == old(self).max_tasks_per_user,
    {
        let ghost nd = old(self).associated_roles@.no_duplicates();
        let ghost nd2 = nd && picks@.no_duplicates();
        let ghost orig = old(self).associated_roles@;
        let ghost newf = |v: u64| !old(self).associated_roles@.contains(v);
        let ghost keepf = |r: u64| picks@.contains(r);
        assert(picks@.take(0).filter(newf) =~= Seq::<u64>::empty());
        assert(orig + picks@.take(0).filter(newf) =~= orig);
        let mut i: usize = 0;
        while i < picks.len()
            invariant
                i <= picks@.len(),
                nd == old(self).associated_roles@.no_duplicates(),
                nd ==> self.associated_roles@.no_duplicates(),
                forall|k: int| 0 <= k < i ==> self.associated_roles@.contains(#[trigger] picks@[k]),
                nd ==> forall|r: u64| #[trigger] self.associated_roles@.contains(r) ==> old(self).associated_roles@.contains(r)
                    || picks@.contains(r),
                self.name == old(self).name,
                self.tasks_forum == old(self).tasks_forum,
                self.max_tasks_per_user == old(self).max_tasks_per_user,
                nd2 == (nd && picks@.no_duplicates()),
                orig == old(self).associated_roles@,
                newf == (|v: u64| !old(self).associated_roles@.contains(v)),
                nd2 ==> self.associated_roles@ == orig + picks@.take(i as int).filter(newf),
            decreases picks@.len() - i,
        {
            let ghost before = self.associated_roles@;
            let r = picks[i];
            proof {
                assert(picks@.take(i + 1) =~= picks@.take(i as int).push(picks@[i as int]));
                picks@.take(i as int).lemma_filter_push(picks@[i as int], newf);
                if nd2 {
                    let f = picks@.take(i as int).filter(newf);
                    if f.contains(r) {
                        picks@.take(i as int).lemma_filter_contains_rev(newf, r);
                        let w = choose|w: int| 0 <= w < i && picks@.take(i as int)[w] == r;
                        assert(picks@[w] == picks@[i as int]);
                    }
                    assert(before.contains(r) <==> orig.contains(r)) by {
                        if before.contains(r) {
                            let w = choose|w: int| 0 <= w < before.len() && before[w] == r;
                            if w >= orig.len() {
                                assert(f[w - orig.len()] == r);
                            } else {
                                assert(orig[w] == r);
                            }
                        }
                        if orig.contains(r) {
                            let w = choose|w: int| 0 <= w < orig.len() && orig[w] == r;
                            assert(before[w] == r);
                        }
                    }
                }
            }
            if !vec_contains_u64(&self.associated_roles, r) {
                self.add_role(r);
                proof {
                    let now = self.associated_roles@;
                    assert(now == before.push(r));
                    assert(now[before.len() as int] == r);
                    if nd2 {
                        assert(now =~= orig + picks@.take(i + 1).filter(newf));
                    }
                    assert forall|k: int| 0 <= k < i + 1 implies now.contains(#[trigger] picks@[k]) by {
                        if k < i {
                            let w = choose|w: int| 0 <= w < before.len() && before[w] == picks@[k];
                            assert(now[w] == picks@[k]);
                        }
                    }
                    if nd {
                        assert forall|a: int, b: int| 0 <= a < b < now.len() implies now[a] != now[b] by {
                            if b == before.len() {
                                assert(before[a] == now[a]);
                            }
                        }
                        assert forall|x: u64| #[trigger] now.contains(x) implies old(self).associated_roles@.contains(x)
                            || picks@.contains(x) by {
                            let w = choose|w: int| 0 <= w < now.len() && now[w] == x;
                            if w < before.len() {
                                assert(before[w] == x);
                                assert(before.contains(x));
                            } else {
                                assert(picks@[i as int] == x);
                            }
                        }
                    }
                }
            }
            i = i + 1;
        }
        assert(picks@.take(picks@.len() as int) =~= picks@);
        let snapshot = self.associated_roles.dup();
        let mut j: usize = 0;
        assert(snapshot@.subrange(0, snapshot@.len() as int) =~= snapshot@);
        assert forall|r: u64| picks@.contains(r) implies #[trigger] self.associated_roles@.contains(r) by {
            let k = choose|k: int| 0 <= k < picks@.len() && picks@[k] == r;
            assert(self.associated_roles@.contains(picks@[k]));
        }
        proof {
            assert(snapshot@.take(0).filter(keepf) + snapshot@.skip(0) =~= snapshot@);
        }
        while j < snapshot.len()
            invariant
                j <= snapshot@.len(),
                nd == old(self).associated_roles@.no_duplicates(),
                nd ==> self.associated_roles@.no_duplicates(),
                nd ==> snapshot@.no_duplicates(),
                nd2 == (nd && picks@.no_duplicates()),
                nd2 ==> snapshot@ == orig + picks@.filter(newf),
                keepf == (|r: u64| picks@.contains(r)),
                nd ==> self.associated_roles@ == snapshot@.take(j as int).filter(keepf) + snapshot@.skip(j as int),
                forall|r: u64| picks@.contains(r) ==> #[trigger] self.associated_roles@.contains(r),
                nd ==> forall|r: u64| #[trigger] self.associated_roles@.contains(r) ==> picks@.contains(r)
                    || snapshot@.subrange(j as int, snapshot@.len() as int).contains(r),
                self.name == old(self).name,
                self.tasks_forum == old(self).tasks_forum,
                self.max_tasks_per_user == old(self).max_tasks_per_user,
            decreases snapshot@.len() - j,
        {
            let role = snapshot[j];
            let ghost before = self.associated_roles@;
            let ghost rest = snapshot@.subrange(j as int, snapshot@.len() as int);
            proof {
                assert(rest[0] == role);
                assert(rest.drop_first() =~= snapshot@.subrange(j + 1, snapshot@.len() as int));
                assert(snapshot@.take(j + 1) =~= snapshot@.take(j as int).push(snapshot@[j as int]));
                snapshot@.take(j as int).lemma_filter_push(snapshot@[j as int], keepf);
                assert(snapshot@.skip(j as int) =~= seq![snapshot@[j as int]] + snapshot@.skip(j + 1));
            }
            if !vec_contains_u64(picks, role) {
                self.remove_role(role);
                proof {
                    let now = self.associated_roles@;
                    if nd {
                        let a = snapshot@.take(j as int).filter(keepf);
                        let b = snapshot@.skip(j + 1);
                        assert(before =~= a + seq![role] + b);
                        assert forall|k: int| 0 <= k < a.len() implies before[k] != role by {
                            snapshot@.take(j as int).lemma_filter_contains_rev(keepf, a[k]);
                            assert(a.contains(a[k]));
                            if a[k] == role {
                                let w = choose|w: int| 0 <= w < j && snapshot@.take(j as int)[w] == role;
                                assert(snapshot@[w] == snapshot@[j as int]);
                            }
                        }
                        crate::member::lemma_remove_first_at(before, role, a.len() as int);
                        assert(before.remove(a.len() as int) =~= a + b);
                        assert(now =~= snapshot@.take(j + 1).filter(keepf) + snapshot@.skip(j + 1));
                    }
                    assert forall|x: u64| picks@.contains(x) implies #[trigger] now.contains(x) by {
                        lemma_remove_first_keeps(before, role, x);
                    }
                    if nd {
                        lemma_remove_first_unique(before, role);
                        assert forall|x: u64| #[trigger] now.contains(x) implies picks@.contains(x)
                            || snapshot@.subrange(j + 1, snapshot@.len() as int).contains(x) by {
                            lemma_remove_first_keeps(before, role, x);
                            if !picks@.contains(x) {
                                let k = choose|k: int| 0 <= k < rest.len() && rest[k] == x;
                                assert(k != 0);
                                assert(rest.drop_first()[k - 1] == x);
                            }
                        }
                    }
                }
            } else {
                proof {
                    if nd {
                        assert(snapshot@.take(j + 1).filter(keepf) + snapshot@.skip(j + 1) =~= snapshot@.take(j as int).filter(
                            keepf,
                        ) + snapshot@.skip(j as int));
                        assert forall|x: u64| #[trigger] before.contains(x) implies picks@.contains(x)
                            || snapshot@.subrange(j + 1, snapshot@.len() as int).contains(x) by {
                            if !picks@.contains(x) {
                                let k = choose|k: int| 0 <= k < rest.len() && rest[k] == x;
                                assert(k != 0);
                                assert(rest.drop_first()[k - 1] == x);
                            }
                        }
                    }
                }
            }
            j = j + 1;
        }
        proof {
            assert(snapshot@.subrange(snapshot@.len() as int, snapshot@.len() as int).len() == 0);
            assert(snapshot@.take(snapshot@.len() as int) =~= snapshot@);
            assert(snapshot@.skip(snapshot@.len() as int) =~= Seq::<u64>::empty());
            if nd2 {
                let added = picks@.filter(newf);
                Seq::filter_distributes_over_add(orig, added, keepf);
                lemma_filter_keeps_all(added, keepf, picks@, newf);
                assert(self.associated_roles@ =~= orig.filter(keepf) + added);
            }
        }
    }
}

/// Filtering picks again by whether they are picks keeps them all.
proof fn lemma_filter_keeps_all(s: Seq<u64>, keep: spec_fn(u64) -> bool, picks: Seq<u64>, f: spec_fn(u64) -> bool)
    requires
        s == picks.filter(f),
        keep == (|r: u64| picks.contains(r)),
    ensures
        s.filter(keep) == s,
    decreases s.len(),
{
    assert forall|i: int| 0 <= i < s.len() implies keep(s[i]) by {
        picks.lemma_filter_contains_rev(f, s[i]);
        assert(s.contains(s[i]));
    }
    lemma_filter_all(s, keep);
}

/// A filter that every item passes keeps the sequence.
proof fn lemma_filter_all(s: Seq<u64>, keep: spec_fn(u64) -> bool)
    requires
        forall|i: int| 0 <= i < s.len() ==> keep(s[i]),
    ensures
        s.filter(keep) == s,
    decreases s.len(),
{
    if s.len() == 0 {
        assert(s.filter(keep) =~= s);
    } else {
        let d = s.drop_last();
        assert forall|i: int| 0 <= i < d.len() implies keep(d[i]) by {
            assert(d[i] == s[i]);
        }
        lemma_filter_all(d, keep);
        d.lemma_filter_push(s.last(), keep);
        assert(d.push(s.last()) =~= s);
    }
}

/// The ids of a parameter's row in editor `name`: the id of the
/// disabled button that labels it, the localization key of that label,
/// and the id of the button that edits it.
pub open spec fn param_row(name: Seq<char>, param: Seq<char>) -> (Seq<char>, Seq<char>, Seq<char>) {
    (name + ":"@ + param + "-label"@, name + "-"@ + param + "-label"@, name + ":"@ + param)
}

/// The rows of editor `name`, one per parameter in order (see
/// `param_row`).
pub fn param_rows(name: &str, params: &Vec<String>) -> (r: Vec<(String, String, String)>)
    ensures
        r@.len() == params@.len(),
        forall|i: int| 0 <= i < r@.len() ==> ((#[trigger] r@[i]).0@, r@[i].1@, r@[i].2@) == param_row(name@, params@[i]@),
{
    let mut out: Vec<(String, String, String)> = Vec::new();
    let mut i: usize = 0;
    while i < params.len()
        invariant
            i <= params@.len(),
            out@.len() == i,
            forall|j: int| 0 <= j < i ==> ((#[trigger] out@[j]).0@, out@[j].1@, out@[j].2@) == param_row(name@, params@[j]@),
        decreases params@.len() - i,
    {
        let p = params[i].as_str();
        let label_id = concat(&concat(&concat(name, ":"), p), "-label");
        let label_key = concat(&concat(&concat(name, "-"), p), "-label");
        let edit_id = concat(&concat(name, ":"), p);
        assert(label_id@ =~= name@ + ":"@ + params@[i as int]@ + "-label"@);
        assert(label_key@ =~= name@ + "-"@ + params@[i as int]@ + "-label"@);
        assert(edit_id@ =~= name@ + ":"@ + params@[i as int]@);
        out.push((label_id, label_key, edit_id));
        i = i + 1;
    }
    out
}

/// A row of the task editor.
#[derive(Debug, PartialEq)]
pub enum TaskEditorRow {
    /// Pick the members, at most `max` of them (the limit cut to a byte).
    Members { current: Vec<u64>, max: u8 },
    /// Pick the mentor.
    Mentor { current: Option<u64> },
    /// A parameter's label and edit button (see `param_row`).
    Param { label_id: String, label_key: String, edit_id: String },
    /// Reopen the task.
    Open,
    /// Close the task.
    Close,
}

/// `row` is the row of parameter `param` of editor `name`.
pub open spec fn is_param(row: TaskEditorRow, name: Seq<char>, param: Seq<char>) -> bool {
    match row {
        TaskEditorRow::Param { label_id, label_key, edit_id } => (label_id@, label_key@, edit_id@) == param_row(name, param),
        _ => false,
    }
}

impl Task {
    /// The rows of the task editor: for a closed task only a button that
    /// reopens it; otherwise the members and mentor pickers, the score and
    /// member-limit parameters, and a button that closes it.
    pub fn editor_rows(&self) -> (r: Vec<TaskEditorRow>)
        ensures
            self.finished ==> r@.len() == 1 && r@[0] is Open,
            !self.finished ==> {
                &&& r@.len() == 5
                &&& r@[0] matches TaskEditorRow::Members { current, max } && current@ == self.member_seq() && max
                    == self.max_members.value() as u8
                &&& r@[1] matches TaskEditorRow::Mentor { current } && current == self.mentor_id.value()
                &&& is_param(r@[2], "task-changer"@, "score"@)
                &&& is_param(r@[3], "task-changer"@, "max-members"@)
                &&& r@[4] is Close
            },
    {
        let mut rows: Vec<TaskEditorRow> = Vec::new();
        if self.finished {
            rows.push(TaskEditorRow::Open);
            return rows;
        }
        rows.push(TaskEditorRow::Members { current: self.members.get().dup(), max: *self.max_members.get() as u8 });
        rows.push(TaskEditorRow::Mentor { current: *self.mentor_id.get() });
        let params = vec![String::from_str("score"), String::from_str("max-members")];
        assert(params@[0]@ == "score"@ && params@[1]@ == "max-members"@);
        let ps = param_rows("task-changer", &params);
        let mut i: usize = 0;
        while i < ps.len()
            invariant
                ps@.len() == 2,
                params@.len() == 2,
                params@[0]@ == "score"@,
                params@[1]@ == "max-members"@,
                forall|j: int| 0 <= j < 2 ==> ((#[trigger] ps@[j]).0@, ps@[j].1@, ps@[j].2@) == param_row("task-changer"@, params@[j]@),
                i <= 2,
                rows@.len() == 2 + i,
                rows@[0] matches TaskEditorRow::Members { current, max } && current@ == self.member_seq() && max
                    == self.max_members.value() as u8,
                rows@[1] matches TaskEditorRow::Mentor { current } && current == self.mentor_id.value(),
                forall|k: int| 2 <= k < 2 + i ==> is_param(#[trigger] rows@[k], "task-changer"@, params@[k - 2]@),
            decreases 2 - i,
        {
            let (a, b, c) = (ps[i].0.clone(), ps[i].1.clone(), ps[i].2.clone());
            rows.push(TaskEditorRow::Param { label_id: a, label_key: b, edit_id: c });
            i = i + 1;
        }
        rows.push(TaskEditorRow::Close);
        assert(is_param(rows@[2], "task-changer"@, params@[0]@));
        assert(is_param(rows@[3], "task-changer"@, params@[1]@));
        rows
    }
}

/// A row of the tag editor.
#[derive(Debug, PartialEq)]
pub enum TagEditorRow {
    /// Pick the tag's type: per type, the localization key of its label,
    /// its name, and whether it is the tag's type.
    TagType { options: Vec<(String, String, bool)> },
    /// Pick the role pinged for new tasks.
    PingRole { current: Option<u64> },
    /// Pick the project of tasks: per project, its name and whether it is
    /// the tag's.
    Project { options: Vec<(String, bool)> },
    /// A parameter's label and edit button (see `param_row`).
    Param { label_id: String, label_key: String, edit_id: String },
}

/// The option of a tag type in the tag editor, for a tag of type `current`.
pub open spec fn type_option(t: TageTypes, current: Option<TageTypes>) -> (Seq<char>, Seq<char>, bool) {
    ("tag-types-"@ + tag_type_name(t), tag_type_name(t), current == Some(t))
}

/// `row` picks among `projects`, the one of `current` selected.
pub open spec fn project_picker(row: TagEditorRow, projects: Seq<String>, current: Option<String>) -> bool {
    match row {
        TagEditorRow::Project { options } => options@.len() == projects.len() && forall|i: int|
            0 <= i < options@.len() ==> (#[trigger] options@[i]).0@ == projects[i]@ && options@[i].1 == (match current {
                Some(p) => p@ == projects[i]@,
                None => false,
            }),
        _ => false,
    }
}

/// `row` is the row of parameter `param` of editor `name`.
pub open spec fn is_tag_param(row: TagEditorRow, name: Seq<char>, param: Seq<char>) -> bool {
    match row {
        TagEditorRow::Param { label_id, label_key, edit_id } => (label_id@, label_key@, edit_id@) == param_row(name, param),
        _ => false,
    }
}

fn type_option_exec(t: TageTypes, current: Option<TageTypes>) -> (r: (String, String, bool))
    ensures
        (r.0@, r.1@, r.2) == type_option(t, current),
{
    let name = t.to_string();
    let key = concat("tag-types-", name.as_str());
    (key, name, current == Some(t))
}

impl TaskTag {
    /// The rows of the tag editor: the type picker, the ping-role picker,
    /// the project picker when there are `projects`, then the member-limit
    /// and score-modifier parameters.
    pub fn editor_rows(&self, projects: &Vec<String>) -> (r: Vec<TagEditorRow>)
        ensures
            ({
                let k: int = if projects@.len() > 0 {
                    1
                } else {
                    0
                };
                &&& r@.len() == 4 + k
                &&& r@[0] matches TagEditorRow::TagType { options } && options@.len() == 3
                    && (options@[0].0@, options@[0].1@, options@[0].2) == type_option(TageTypes::Base, self.tag_type)
                    && (options@[1].0@, options@[1].1@, options@[1].2) == type_option(TageTypes::ClosedTask, self.tag_type)
                    && (options@[2].0@, options@[2].1@, options@[2].2) == type_option(TageTypes::InWork, self.tag_type)
                &&& r@[1] == TagEditorRow::PingRole { current: self.ping_role }
                &&& projects@.len() > 0 ==> project_picker(r@[2], projects@, self.task_project)
                &&& is_tag_param(r@[2 + k], "tag-changer"@, "max-members"@)
                &&& is_tag_param(r@[3 + k], "tag-changer"@, "score-modifier"@)
            }),
    {
        let mut rows: Vec<TagEditorRow> = Vec::new();
        let options = vec![
            type_option_exec(TageTypes::Base, self.tag_type),
            type_option_exec(TageTypes::ClosedTask, self.tag_type),
            type_option_exec(TageTypes::InWork, self.tag_type),
        ];
        rows.push(TagEditorRow::TagType { options });
        rows.push(TagEditorRow::PingRole { current: self.ping_role });
        if projects.len() > 0 {
            let mut opts: Vec<(String, bool)> = Vec::new();
            let mut i: usize = 0;
            while i < projects.len()
                invariant
                    i <= projects@.len(),
                    opts@.len() == i,
                    forall|j: int| 0 <= j < i ==> (#[trigger] opts@[j]).0@ == projects@[j]@
                        && opts@[j].1 == (match self.task_project {
                            Some(p) => p@ == projects@[j]@,
                            None => false,
                        }),
                decreases projects@.len() - i,
            {
                let selected = match &self.task_project {
                    Some(p) => *p == projects[i],
                    None => false,
                };
                opts.push((projects[i].clone(), selected));
                i = i + 1;
            }
            rows.push(TagEditorRow::Project { options: opts });
        }
        let params = vec![String::from_str("max-members"), String::from_str("score-modifier")];
        let ps = param_rows("tag-changer", &params);
        assert(params@[0]@ == "max-members"@ && params@[1]@ == "score-modifier"@);
        assert(((ps@[0]).0@, ps@[0].1@, ps@[0].2@) == param_row("tag-changer"@, params@[0]@));
        assert(((ps@[1]).0@, ps@[1].1@, ps@[1].2@) == param_row("tag-changer"@, params@[1]@));
        rows.push(TagEditorRow::Param { label_id: ps[0].0.clone(), label_key: ps[0].1.clone(), edit_id: ps[0].2.clone() });
        rows.push(TagEditorRow::Param { label_id: ps[1].0.clone(), label_key: ps[1].1.clone(), edit_id: ps[1].2.clone() });
        rows
    }
}

/// A row of the project editor.
#[derive(Debug, PartialEq)]
pub enum ProjectEditorRow {
    /// A parameter's label and edit button (see `param_row`).
    Param { label_id: String, label_key: String, edit_id: String },
    /// Pick the forum of tasks.
    TasksForum,
    /// Pick the role that waits for new tasks.
    WaiterRole { current: Option<u64> },
    /// Pick the channel of statistics posts.
    StatChannel { current: Option<u64> },
    /// Pick the roles that take part.
    AssociatedRoles { current: Vec<u64> },
}

impl Project {
    /// The rows of the project editor: the tasks-per-member parameter, and
    /// the pickers of the tasks forum, the waiter role, the statistics
    /// channel and the associated roles.
    pub fn editor_rows(&self) -> (r: Vec<ProjectEditorRow>)
        ensures
            r@.len() == 5,
            (r@[0] matches ProjectEditorRow::Param { label_id, label_key, edit_id } && (label_id@, label_key@, edit_id@)
                == param_row("project-changer"@, "max-tasks-per-user"@)),
            r@[1] == ProjectEditorRow::TasksForum,
            r@[2] == (ProjectEditorRow::WaiterRole { current: self.waiter_role }),
            r@[3] == (ProjectEditorRow::StatChannel { current: self.stat_channel }),
            (r@[4] matches ProjectEditorRow::AssociatedRoles { current } && current@ == self.associated_roles@),
    {
        let params = vec![String::from_str("max-tasks-per-user")];
        let ps = param_rows("project-changer", &params);
        assert(params@[0]@ == "max-tasks-per-user"@);
        let mut rows: Vec<ProjectEditorRow> = Vec::new();
        rows.push(ProjectEditorRow::Param { label_id: ps[0].0.clone(), label_key: ps[0].1.clone(), edit_id: ps[0].2.clone() });
        rows.push(ProjectEditorRow::TasksForum);
        rows.push(ProjectEditorRow::WaiterRole { current: self.waiter_role });
        rows.push(ProjectEditorRow::StatChannel { current: self.stat_channel });
        rows.push(ProjectEditorRow::AssociatedRoles { current: self.associated_roles.dup() });
        rows
    }
}

} // verus!
