//! The cards (titles and fields, as texts) of tasks, projects and tags,
//! and the statistics block of a member in a project.
use vstd::prelude::*;
use crate::localization::{localized, Localization};
use crate::member::{list_of, ProjectMember};
use crate::member_embed::{fields_view, mark, EmbedField};
use crate::project::Project;
use crate::shop::Page;
use crate::tag::{tag_type_name, TaskTag};
use crate::task::{Task, TaskManager};
use crate::text::{chars_of, decimal, push_all, push_decimal, signed_decimal, string_of, u64_to_string};

verus! {

fn push_str(out: &mut Vec<char>, s: &str)
    ensures
        final(out)@ == old(out)@ + s@,
{
    let v = chars_of(s);
    push_all(out, &v);
}

fn push_signed(out: &mut Vec<char>, n: i64)
    ensures
        final(out)@ == old(out)@ + signed_decimal(n as int),
{
    if n < 0 {
        out.push('-');
        let m: u64 = if n == i64::MIN {
            9223372036854775808u64
        } else {
            (-n) as u64
        };
        push_decimal(out, m);
        assert(out@ =~= old(out)@ + signed_decimal(n as int));
    } else {
        push_decimal(out, n as u64);
    }
}

fn push_mark(out: &mut Vec<char>, is_last: bool)
    ensures
        final(out)@ == old(out)@ + mark(is_last),
{
    if is_last {
        push_str(out, "\u{255a}");
    } else {
        push_str(out, "\u{2560}\u{fe0e}");
    }
}

/// A field that is not inline.
fn field(name: String, value: Vec<char>) -> (f: EmbedField)
    ensures
        f.name == name,
        f.value@ == value@,
        !f.inline,
{
    EmbedField { name, value: string_of(&value), inline: false }
}

/// `text` between backticks.
pub open spec fn quoted(text: Seq<char>) -> Seq<char> {
    "`"@ + text + "`"@
}

/// The localized text of `key` with no replacement.
pub open spec fn plain(entries: Map<Seq<char>, Seq<char>>, key: Seq<char>) -> Seq<char> {
    localized(entries, key, Seq::empty())
}

// ---------------------------------------------------------------------------
// Tasks
// ---------------------------------------------------------------------------
/// `- <@member>` and a newline for each member.
pub open spec fn member_list(members: Seq<u64>) -> Seq<char>
    decreases members.len(),
{
    if members.len() == 0 {
        Seq::empty()
    } else {
        member_list(members.drop_last()) + "- <@"@ + decimal(members.last() as nat) + ">\n"@
    }
}

/// The fields of the card of task `t`.
pub open spec fn task_fields(t: Task, entries: Map<Seq<char>, Seq<char>>) -> Seq<(Seq<char>, Seq<char>)> {
    let id = seq![(plain(entries, "task-embed-id-name"@), quoted(decimal(t.id as nat)))];
    let start = match t.start_date {
        Some(d) => seq![(plain(entries, "task-embed-start-date-name"@), "<t:"@ + signed_decimal(d as int) + ":f>"@)],
        None => Seq::empty(),
    };
    let score = seq![(plain(entries, "task-embed-score-name"@), quoted(signed_decimal(t.score.value() as int)))];
    let save = seq![(
        plain(entries, "task-embed-last-save-name"@),
        quoted(
            match t.last_save.value() {
                Some(s) => s@,
                None => plain(entries, "task-embed-no-last-save"@),
            },
        ),
    )];
    let mentor = match t.mentor_id.value() {
        Some(m) => seq![(plain(entries, "task-embed-mentor-name"@), "- <@"@ + decimal(m as nat) + ">"@)],
        None => Seq::empty(),
    };
    let members = seq![(
        localized(
            entries,
            "task-embed-members-name"@,
            seq![("current"@, decimal(t.member_seq().len())), ("max"@, decimal(t.max_members.value() as nat))],
        ),
        member_list(t.member_seq()),
    )];
    id + start + score + save + mentor + members
}

impl Task {
    /// The title of the task's card.
    pub fn embed_title(&self, loc: &Localization) -> (r: String)
        ensures
            r@ == localized(loc.entries(), "task-embed-title"@, seq![("task"@, self.name.value())]),
    {
        let mut reps: Vec<(String, String)> = Vec::new();
        reps.push((string_of(&chars_of("task")), self.name.get().clone()));
        proof {
            assert(crate::localization::reps_view(reps@) =~= seq![("task"@, self.name.value())]);
        }
        loc.get_string("task-embed-title", Some(reps))
    }

    /// The fields of the task's card (see `task_fields`).
    pub fn embed_fields(&self, loc: &Localization) -> (r: Vec<EmbedField>)
        ensures
            fields_view(r@) == task_fields(*self, loc.entries()),
            forall|i: int| 0 <= i < r@.len() ==> !(#[trigger] r@[i]).inline,
    {
        let ghost e = loc.entries();
        let mut fields: Vec<EmbedField> = Vec::new();
        let mut v: Vec<char> = Vec::new();
        push_str(&mut v, "`");
        push_decimal(&mut v, self.id as u64);
        push_str(&mut v, "`");
        fields.push(field(loc.get_string("task-embed-id-name", None), v));
        let ghost g0 = seq![(plain(e, "task-embed-id-name"@), quoted(decimal(self.id as nat)))];
        assert(fields_view(fields@) =~= g0);
        let ghost g1 = match self.start_date {
            Some(d) => seq![(plain(e, "task-embed-start-date-name"@), "<t:"@ + signed_decimal(d as int) + ":f>"@)],
            None => Seq::empty(),
        };
        match self.start_date {
            Some(d) => {
                let mut v: Vec<char> = Vec::new();
                push_str(&mut v, "<t:");
                push_signed(&mut v, d);
                push_str(&mut v, ":f>");
                fields.push(field(loc.get_string("task-embed-start-date-name", None), v));
            },
            None => {},
        }
        assert(fields_view(fields@) =~= g0 + g1);
        let mut v: Vec<char> = Vec::new();
        push_str(&mut v, "`");
        push_signed(&mut v, *self.score.get());
        push_str(&mut v, "`");
        fields.push(field(loc.get_string("task-embed-score-name", None), v));
        let mut v: Vec<char> = Vec::new();
        push_str(&mut v, "`");
        match self.last_save.get() {
            Some(s) => push_str(&mut v, s.as_str()),
            None => {
                let t = loc.get_string("task-embed-no-last-save", None);
                push_str(&mut v, t.as_str());
            },
        }
        push_str(&mut v, "`");
        fields.push(field(loc.get_string("task-embed-last-save-name", None), v));
        let ghost g2 = seq![
            (plain(e, "task-embed-score-name"@), quoted(signed_decimal(self.score.value() as int))),
            (
                plain(e, "task-embed-last-save-name"@),
                quoted(
                    match self.last_save.value() {
                        Some(s) => s@,
                        None => plain(e, "task-embed-no-last-save"@),
                    },
                ),
            ),
        ];
        assert(fields_view(fields@) =~= g0 + g1 + g2);
        let ghost g3 = match self.mentor_id.value() {
            Some(m) => seq![(plain(e, "task-embed-mentor-name"@), "- <@"@ + decimal(m as nat) + ">"@)],
            None => Seq::empty(),
        };
        match self.mentor_id.get() {
            Some(m) => {
                let mut v: Vec<char> = Vec::new();
                push_str(&mut v, "- <@");
                push_decimal(&mut v, *m);
                push_str(&mut v, ">");
                fields.push(field(loc.get_string("task-embed-mentor-name", None), v));
            },
            None => {},
        }
        assert(fields_view(fields@) =~= g0 + g1 + g2 + g3);
        let members = self.members.get();
        let mut text: Vec<char> = Vec::new();
        let mut i: usize = 0;
        assert(members@.subrange(0, 0) =~= Seq::<u64>::empty());
        while i < members.len()
            invariant
                i <= members@.len(),
                text@ == member_list(members@.subrange(0, i as int)),
            decreases members@.len() - i,
        {
            proof {
                assert(members@.subrange(0, i + 1).drop_last() =~= members@.subrange(0, i as int));
            }
            push_str(&mut text, "- <@");
            push_decimal(&mut text, members[i]);
            push_str(&mut text, ">\n");
            assert(text@ =~= member_list(members@.subrange(0, i + 1)));
            i = i + 1;
        }
        assert(members@.subrange(0, members@.len() as int) =~= members@);
        let mut reps: Vec<(String, String)> = Vec::new();
        reps.push((string_of(&chars_of("current")), u64_to_string(members.len() as u64)));
        reps.push((string_of(&chars_of("max")), u64_to_string(*self.max_members.get() as u64)));
        proof {
            assert(crate::localization::reps_view(reps@) =~= seq![
                ("current"@, decimal(self.member_seq().len())),
                ("max"@, decimal(self.max_members.value() as nat)),
            ]);
        }
        fields.push(field(loc.get_string("task-embed-members-name", Some(reps)), text));
        assert(fields_view(fields@) =~= task_fields(*self, e));
        fields
    }
}

// ---------------------------------------------------------------------------
// Tags
// ---------------------------------------------------------------------------
/// The fields of the card of tag `t`.
pub open spec fn tag_fields(t: TaskTag, entries: Map<Seq<char>, Seq<char>>) -> Seq<(Seq<char>, Seq<char>)> {
    let base = seq![
        (plain(entries, "tag-embed-id-name"@), quoted(decimal(t.id as nat))),
        (plain(entries, "tag-embed-forum-id-name"@), "<#"@ + decimal(t.forum_id as nat) + ">"@),
    ];
    let kind = match t.tag_type {
        Some(k) => seq![(plain(entries, "tag-embed-tag-type-name"@), plain(entries, "tag-types-"@ + tag_type_name(k)))],
        None => Seq::empty(),
    };
    let max = match t.max_members {
        Some(n) => seq![(plain(entries, "tag-embed-max-members-name"@), quoted(decimal(n as nat)))],
        None => Seq::empty(),
    };
    let modifier = match t.score_modifier {
        Some(n) => seq![(plain(entries, "tag-embed-score-modifier-name"@), quoted(signed_decimal(n as int)))],
        None => Seq::empty(),
    };
    let project = match t.task_project {
        Some(p) => seq![(plain(entries, "tag-embed-task-project-name"@), quoted(p@))],
        None => Seq::empty(),
    };
    let ping = match t.ping_role {
        Some(r) => seq![(plain(entries, "tag-embed-ping-role-name"@), "<@&"@ + decimal(r as nat) + ">"@)],
        None => Seq::empty(),
    };
    base + kind + max + modifier + project + ping
}

impl TaskTag {
    /// The fields of the tag's card (see `tag_fields`); its title is the
    /// text of `tag-embed-title`.
    pub fn embed_fields(&self, loc: &Localization) -> (r: Vec<EmbedField>)
        ensures
            fields_view(r@) == tag_fields(*self, loc.entries()),
            forall|i: int| 0 <= i < r@.len() ==> !(#[trigger] r@[i]).inline,
    {
        let ghost e = loc.entries();
        let mut fields: Vec<EmbedField> = Vec::new();
        let mut v: Vec<char> = Vec::new();
        push_str(&mut v, "`");
        push_decimal(&mut v, self.id);
        push_str(&mut v, "`");
        fields.push(field(loc.get_string("tag-embed-id-name", None), v));
        let mut v: Vec<char> = Vec::new();
        push_str(&mut v, "<#");
        push_decimal(&mut v, self.forum_id);
        push_str(&mut v, ">");
        fields.push(field(loc.get_string("tag-embed-forum-id-name", None), v));
        let ghost g0 = seq![
            (plain(e, "tag-embed-id-name"@), quoted(decimal(self.id as nat))),
            (plain(e, "tag-embed-forum-id-name"@), "<#"@ + decimal(self.forum_id as nat) + ">"@),
        ];
        assert(fields_view(fields@) =~= g0);
        let ghost g1 = match self.tag_type {
            Some(k) => seq![(plain(e, "tag-embed-tag-type-name"@), plain(e, "tag-types-"@ + tag_type_name(k)))],
            None => Seq::empty(),
        };
        match self.tag_type {
            Some(k) => {
                let mut key: Vec<char> = Vec::new();
                push_str(&mut key, "tag-types-");
                let name = k.to_string();
                push_str(&mut key, name.as_str());
                let key_text = string_of(&key);
                let value = loc.get_string(key_text.as_str(), None);
                fields.push(field(loc.get_string("tag-embed-tag-type-name", None), chars_of(value.as_str())));
            },
            None => {},
        }
        assert(fields_view(fields@) =~= g0 + g1);
        let ghost g2 = match self.max_members {
            Some(n) => seq![(plain(e, "tag-embed-max-members-name"@), quoted(decimal(n as nat)))],
            None => Seq::empty(),
        };
        match self.max_members {
            Some(n) => {
                let mut v: Vec<char> = Vec::new();
                push_str(&mut v, "`");
                push_decimal(&mut v, n as u64);
                push_str(&mut v, "`");
                fields.push(field(loc.get_string("tag-embed-max-members-name", None), v));
            },
            None => {},
        }
        assert(fields_view(fields@) =~= g0 + g1 + g2);
        let ghost g3 = match self.score_modifier {
            Some(n) => seq![(plain(e, "tag-embed-score-modifier-name"@), quoted(signed_decimal(n as int)))],
            None => Seq::empty(),
        };
        match self.score_modifier {
            Some(n) => {
                let mut v: Vec<char> = Vec::new();
                push_str(&mut v, "`");
                push_signed(&mut v, n);
                push_str(&mut v, "`");
                fields.push(field(loc.get_string("tag-embed-score-modifier-name", None), v));
            },
            None => {},
        }
        assert(fields_view(fields@) =~= g0 + g1 + g2 + g3);
        let ghost g4 = match &self.task_project {
            Some(p) => seq![(plain(e, "tag-embed-task-project-name"@), quoted(p@))],
            None => Seq::empty(),
        };
        match &self.task_project {
            Some(p) => {
                let mut v: Vec<char> = Vec::new();
                push_str(&mut v, "`");
                push_str(&mut v, p.as_str());
                push_str(&mut v, "`");
                fields.push(field(loc.get_string("tag-embed-task-project-name", None), v));
            },
            None => {},
        }
        assert(fields_view(fields@) =~= g0 + g1 + g2 + g3 + g4);
        match self.ping_role {
            Some(r) => {
                let mut v: Vec<char> = Vec::new();
                push_str(&mut v, "<@&");
                push_decimal(&mut v, r);
                push_str(&mut v, ">");
                fields.push(field(loc.get_string("tag-embed-ping-role-name", None), v));
            },
            None => {},
        }
        assert(fields_view(fields@) =~= tag_fields(*self, e));
        fields
    }
}

// ---------------------------------------------------------------------------
// Projects
// ---------------------------------------------------------------------------
/// The associated roles as lines.
pub open spec fn role_lines(roles: Seq<u64>, last: u64) -> Seq<char>
    decreases roles.len(),
{
    if roles.len() == 0 {
        Seq::empty()
    } else {
        role_lines(roles.drop_last(), last) + mark(roles.last() == last) + " <@&"@ + decimal(roles.last() as nat) + ">\n"@
    }
}

/// The fields of the card of project `p`.
pub open spec fn project_fields(p: Project, entries: Map<Seq<char>, Seq<char>>) -> Seq<(Seq<char>, Seq<char>)> {
    let max = seq![(plain(entries, "project-embed-max-tasks-per-user-name"@), decimal(p.max_tasks_per_user as nat))];
    let waiter = match p.waiter_role {
        Some(r) => seq![(plain(entries, "project-embed-waiter-role-name"@), "<@&"@ + decimal(r as nat) + ">"@)],
        None => Seq::empty(),
    };
    let forum = seq![(plain(entries, "project-embed-task-forum-name"@), "<#"@ + decimal(p.tasks_forum as nat) + ">"@)];
    let stat = match p.stat_channel {
        Some(c) => seq![(plain(entries, "project-embed-stat-channel-name"@), "<#"@ + decimal(c as nat) + ">"@)],
        None => Seq::empty(),
    };
    let roles = if p.associated_roles@.len() > 0 {
        seq![(
            localized(entries, "project-embed-associated-roles-name"@, seq![("num"@, decimal(p.associated_roles@.len()))]),
            role_lines(p.associated_roles@, p.associated_roles@.last()),
        )]
    } else {
        Seq::empty()
    };
    max + waiter + forum + stat + roles
}

impl Project {
    /// The title of the project's card.
    pub fn embed_title(&self, loc: &Localization) -> (r: String)
        ensures
            r@ == localized(loc.entries(), "project-embed-title"@, seq![("project"@, self.name@)]),
    {
        let mut reps: Vec<(String, String)> = Vec::new();
        reps.push((string_of(&chars_of("project")), self.name.clone()));
        proof {
            assert(crate::localization::reps_view(reps@) =~= seq![("project"@, self.name@)]);
        }
        loc.get_string("project-embed-title", Some(reps))
    }

    /// The fields of the project's card (see `project_fields`).
    pub fn embed_fields(&self, loc: &Localization) -> (r: Vec<EmbedField>)
        ensures
            fields_view(r@) == project_fields(*self, loc.entries()),
            forall|i: int| 0 <= i < r@.len() ==> !(#[trigger] r@[i]).inline,
    {
        let ghost e = loc.entries();
        let mut fields: Vec<EmbedField> = Vec::new();
        let mut v: Vec<char> = Vec::new();
        push_decimal(&mut v, self.max_tasks_per_user as u64);
        fields.push(field(loc.get_string("project-embed-max-tasks-per-user-name", None), v));
        let ghost g0 = seq![(plain(e, "project-embed-max-tasks-per-user-name"@), decimal(self.max_tasks_per_user as nat))];
        assert(fields_view(fields@) =~= g0);
        let ghost g1 = match self.waiter_role {
            Some(r) => seq![(plain(e, "project-embed-waiter-role-name"@), "<@&"@ + decimal(r as nat) + ">"@)],
            None => Seq::empty(),
        };
        match self.waiter_role {
            Some(r) => {
                let mut v: Vec<char> = Vec::new();
                push_str(&mut v, "<@&");
                push_decimal(&mut v, r);
                push_str(&mut v, ">");
                fields.push(field(loc.get_string("project-embed-waiter-role-name", None), v));
            },
            None => {},
        }
        assert(fields_view(fields@) =~= g0 + g1);
        let mut v: Vec<char> = Vec::new();
        push_str(&mut v, "<#");
        push_decimal(&mut v, self.tasks_forum);
        push_str(&mut v, ">");
        fields.push(field(loc.get_string("project-embed-task-forum-name", None), v));
        let ghost g2 = seq![(plain(e, "project-embed-task-forum-name"@), "<#"@ + decimal(self.tasks_forum as nat) + ">"@)];
        assert(fields_view(fields@) =~= g0 + g1 + g2);
        let ghost g3 = match self.stat_channel {
            Some(c) => seq![(plain(e, "project-embed-stat-channel-name"@), "<#"@ + decimal(c as nat) + ">"@)],
            None => Seq::empty(),
        };
        match self.stat_channel {
            Some(c) => {
                let mut v: Vec<char> = Vec::new();
                push_str(&mut v, "<#");
                push_decimal(&mut v, c);
                push_str(&mut v, ">");
                fields.push(field(loc.get_string("project-embed-stat-channel-name", None), v));
            },
            None => {},
        }
        assert(fields_view(fields@) =~= g0 + g1 + g2 + g3);
        let roles = &self.associated_roles;
        if roles.len() > 0 {
            let last = roles[roles.len() - 1];
            let mut text: Vec<char> = Vec::new();
            let mut i: usize = 0;
            assert(roles@.subrange(0, 0) =~= Seq::<u64>::empty());
            while i < roles.len()
                invariant
                    i <= roles@.len(),
                    roles@.len() > 0,
                    last == roles@.last(),
                    text@ == role_lines(roles@.subrange(0, i as int), last),
                decreases roles@.len() - i,
            {
                proof {
                    assert(roles@.subrange(0, i + 1).drop_last() =~= roles@.subrange(0, i as int));
                }
                push_mark(&mut text, roles[i] == last);
                push_str(&mut text, " <@&");
                push_decimal(&mut text, roles[i]);
                push_str(&mut text, ">\n");
                assert(text@ =~= role_lines(roles@.subrange(0, i + 1), last));
                i = i + 1;
            }
            assert(roles@.subrange(0, roles@.len() as int) =~= roles@);
            let mut reps: Vec<(String, String)> = Vec::new();
            reps.push((string_of(&chars_of("num")), u64_to_string(roles.len() as u64)));
            proof {
                assert(crate::localization::reps_view(reps@) =~= seq![("num"@, decimal(roles@.len()))]);
            }
            fields.push(field(loc.get_string("project-embed-associated-roles-name", Some(reps)), text));
        }
        assert(fields_view(fields@) =~= project_fields(*self, e));
        fields
    }
}

// ---------------------------------------------------------------------------
// A member's statistics in a project
// ---------------------------------------------------------------------------
/// The running tasks of a project as lines `\n╠︎ <#thread>`.
pub open spec fn stat_running(ids: Seq<u32>, tasks: Map<u32, Task>) -> Seq<char>
    decreases ids.len(),
{
    if ids.len() == 0 {
        Seq::empty()
    } else {
        stat_running(ids.drop_last(), tasks) + "\n"@ + mark(false) + " <#"@ + decimal(tasks[ids.last()].thread_id as nat)
            + ">"@
    }
}

/// One line of the statistics block, with its indentation.
pub open spec fn stat_line(is_last: bool, name: Seq<char>, value: Seq<char>) -> Seq<char> {
    "                "@ + mark(is_last) + " **"@ + name + ":** "@ + value + "\n"@
}

/// The statistics block of member `m` in `project`: finished, mentored and
/// running tasks, last activity and score.
pub open spec fn project_stat(m: ProjectMember, project: Seq<char>, tasks: Map<u32, Task>, entries: Map<Seq<char>, Seq<char>>) -> Seq<char> {
    let running = if m.in_tasks@.dom().contains(project) {
        stat_running(m.in_tasks@[project]@, tasks)
    } else {
        plain(entries, "member-project-stat-no-in-tasks"@)
    };
    let activity = if m.last_activity@.dom().contains(project) {
        "<t:"@ + signed_decimal(m.last_activity@[project] as int) + ":R>"@
    } else {
        plain(entries, "member-project-stat-no-last-activity"@)
    };
    "\n"@ + stat_line(false, plain(entries, "member-project-stat-done-tasks-name"@), decimal(list_of(m.done_tasks@, project).len()))
        + stat_line(false, plain(entries, "member-project-stat-mentor-tasks-name"@), decimal(list_of(m.mentor_tasks@, project).len()))
        + stat_line(false, plain(entries, "member-project-stat-in-tasks-name"@), running)
        + stat_line(false, plain(entries, "member-project-stat-last-activity-name"@), activity)
        + stat_line(true, plain(entries, "member-project-stat-score-name"@), signed_decimal(m.score as int))
        + "                "@
}

fn push_stat_line(out: &mut Vec<char>, is_last: bool, name: &str, value: &Vec<char>)
    ensures
        final(out)@ == old(out)@ + stat_line(is_last, name@, value@),
{
    push_str(out, "                ");
    push_mark(out, is_last);
    push_str(out, " **");
    push_str(out, name);
    push_str(out, ":** ");
    push_all(out, value);
    push_str(out, "\n");
}

impl ProjectMember {
    /// The statistics of the member in `project_name` for the statistics
    /// post: the member's name, the block (see `project_stat`), and that
    /// the field is inline.  Every running task of the project must exist.
    pub fn to_project_stat(&self, member_name: String, project_name: &String, tasks: &TaskManager, loc: &Localization) -> (r: (
        String,
        String,
        bool,
    ))
        requires
            forall|i: int| 0 <= i < self.tasks_in(project_name@).len() ==> tasks@.dom().contains(
                #[trigger] self.tasks_in(project_name@)[i],
            ),
        ensures
            r.0 == member_name,
            r.1@ == project_stat(*self, project_name@, tasks@, loc.entries()),
            r.2,
    {
        let mut out: Vec<char> = Vec::new();
        push_str(&mut out, "\n");
        let done = match self.done_tasks.get(project_name) {
            Some(l) => l.len(),
            None => 0,
        };
        let mut v: Vec<char> = Vec::new();
        push_decimal(&mut v, done as u64);
        let n = loc.get_string("member-project-stat-done-tasks-name", None);
        push_stat_line(&mut out, false, n.as_str(), &v);
        let mentored = match self.mentor_tasks.get(project_name) {
            Some(l) => l.len(),
            None => 0,
        };
        let mut v: Vec<char> = Vec::new();
        push_decimal(&mut v, mentored as u64);
        let n = loc.get_string("member-project-stat-mentor-tasks-name", None);
        push_stat_line(&mut out, false, n.as_str(), &v);
        let mut v: Vec<char> = Vec::new();
        match self.in_tasks.get(project_name) {
            Some(ids) => {
                let mut i: usize = 0;
                assert(ids@ == self.tasks_in(project_name@));
                assert forall|j: int| 0 <= j < ids@.len() implies tasks@.dom().contains(#[trigger] ids@[j]) by {
                    assert(self.tasks_in(project_name@)[j] == ids@[j]);
                }
                assert(ids@.subrange(0, 0) =~= Seq::<u32>::empty());
                while i < ids.len()
                    invariant
                        i <= ids@.len(),
                        forall|j: int| 0 <= j < ids@.len() ==> tasks@.dom().contains(#[trigger] ids@[j]),
                        v@ == stat_running(ids@.subrange(0, i as int), tasks@),
                    decreases ids@.len() - i,
                {
                    proof {
                        assert(ids@.subrange(0, i + 1).drop_last() =~= ids@.subrange(0, i as int));
                        assert(tasks@.dom().contains(ids@[i as int]));
                    }
                    match tasks.get(ids[i]) {
                        Some(t) => {
                            push_str(&mut v, "\n");
                            push_mark(&mut v, false);
                            push_str(&mut v, " <#");
                            push_decimal(&mut v, t.thread_id);
                            push_str(&mut v, ">");
                        },
                        None => {},
                    }
                    assert(v@ =~= stat_running(ids@.subrange(0, i + 1), tasks@));
                    i = i + 1;
                }
                assert(ids@.subrange(0, ids@.len() as int) =~= ids@);
            },
            None => {
                let t = loc.get_string("member-project-stat-no-in-tasks", None);
                push_str(&mut v, t.as_str());
            },
        }
        let n = loc.get_string("member-project-stat-in-tasks-name", None);
        push_stat_line(&mut out, false, n.as_str(), &v);
        let mut v: Vec<char> = Vec::new();
        match self.last_activity.get(project_name) {
            Some(t) => {
                push_str(&mut v, "<t:");
                push_signed(&mut v, *t);
                push_str(&mut v, ":R>");
            },
            None => {
                let t = loc.get_string("member-project-stat-no-last-activity", None);
                push_str(&mut v, t.as_str());
            },
        }
        let n = loc.get_string("member-project-stat-last-activity-name", None);
        push_stat_line(&mut out, false, n.as_str(), &v);
        let mut v: Vec<char> = Vec::new();
        push_signed(&mut v, self.score);
        let n = loc.get_string("member-project-stat-score-name", None);
        push_stat_line(&mut out, true, n.as_str(), &v);
        push_str(&mut out, "                ");
        assert(out@ =~= project_stat(*self, project_name@, tasks@, loc.entries()));
        (member_name, string_of(&out), true)
    }
}

// ---------------------------------------------------------------------------
// Shop pages
// ---------------------------------------------------------------------------
/// The fields of the shop card of `page` for member `m`, with `max_pages`
/// pages in all: name, description, and, inline, price, page and balance.
pub open spec fn page_fields(page: Page, m: ProjectMember, max_pages: i32, entries: Map<Seq<char>, Seq<char>>) -> Seq<(Seq<char>, Seq<char>, bool)> {
    seq![
        (localized(entries, "shop-embed-item"@, seq![("num"@, signed_decimal(m.shop_data.current_page + 1))]), page.name@, false),
        (plain(entries, "shop-embed-description-field"@), page.description@, false),
        (plain(entries, "shop-embed-price"@), "```"@ + signed_decimal(page.price as int) + "```"@, true),
        (plain(entries, "shop-embed-page"@), "```"@ + signed_decimal(m.shop_data.current_page + 1) + "/"@ + signed_decimal(max_pages as int) + "```"@, true),
        (plain(entries, "shop-embed-balance"@), "```"@ + signed_decimal(m.score as int) + "```"@, true),
    ]
}

/// The name, value and inline flag of fields.
pub open spec fn fields_full_view(fields: Seq<EmbedField>) -> Seq<(Seq<char>, Seq<char>, bool)> {
    fields.map_values(|f: EmbedField| (f.name@, f.value@, f.inline))
}

fn signed_text(n: i64) -> (r: String)
    ensures
        r@ == signed_decimal(n as int),
{
    let mut v: Vec<char> = Vec::new();
    push_signed(&mut v, n);
    string_of(&v)
}

impl Page {
    /// The fields of the page's shop card (see `page_fields`); its title
    /// and description are the texts of `shop-embed-title` and
    /// `shop-embed-description`.
    pub fn embed_fields(&self, member: &ProjectMember, max_pages: i32, loc: &Localization) -> (r: Vec<EmbedField>)
        requires
            member.shop_data.current_page < i32::MAX,
        ensures
            fields_full_view(r@) == page_fields(*self, *member, max_pages, loc.entries()),
    {
        let page_no = member.shop_data.current_page + 1;
        let mut fields: Vec<EmbedField> = Vec::new();
        let mut reps: Vec<(String, String)> = Vec::new();
        reps.push((string_of(&chars_of("num")), signed_text(page_no as i64)));
        proof {
            assert(crate::localization::reps_view(reps@) =~= seq![("num"@, signed_decimal(member.shop_data.current_page + 1))]);
        }
        fields.push(EmbedField { name: loc.get_string("shop-embed-item", Some(reps)), value: self.name.clone(), inline: false });
        fields.push(EmbedField {
            name: loc.get_string("shop-embed-description-field", None),
            value: self.description.clone(),
            inline: false,
        });
        let mut v: Vec<char> = Vec::new();
        push_str(&mut v, "```");
        push_signed(&mut v, self.price);
        push_str(&mut v, "```");
        fields.push(EmbedField { name: loc.get_string("shop-embed-price", None), value: string_of(&v), inline: true });
        let mut v: Vec<char> = Vec::new();
        push_str(&mut v, "```");
        push_signed(&mut v, page_no as i64);
        push_str(&mut v, "/");
        push_signed(&mut v, max_pages as i64);
        push_str(&mut v, "```");
        fields.push(EmbedField { name: loc.get_string("shop-embed-page", None), value: string_of(&v), inline: true });
        let mut v: Vec<char> = Vec::new();
        push_str(&mut v, "```");
        push_signed(&mut v, member.score);
        push_str(&mut v, "```");
        fields.push(EmbedField { name: loc.get_string("shop-embed-balance", None), value: string_of(&v), inline: true });
        assert(fields_full_view(fields@) =~= page_fields(*self, *member, max_pages, loc.entries()));
        fields
    }
}

/// A stat line as values.
pub open spec fn line_view(l: (String, String, bool)) -> (Seq<char>, Seq<char>, bool) {
    (l.0@, l.1@, l.2)
}

/// The stat line listed under `role` in the project's statistics posts,
/// from the guild's members in order, each with its highest role among the
/// project's roles (if any) and its stat line (if it could be made): the
/// listing stops at the first member with such a role, whose line goes
/// under that role.
pub open spec fn line_for(stats: Seq<(Option<u64>, Option<(String, String, bool)>)>, role: u64) -> Option<
    (Seq<char>, Seq<char>, bool),
>
    decreases stats.len(),
{
    if stats.len() == 0 {
        None
    } else {
        match stats[0].0 {
            None => line_for(stats.drop_first(), role),
            Some(r) => if r == role {
                match stats[0].1 {
                    Some(l) => Some(line_view(l)),
                    None => None,
                }
            } else {
                None
            },
        }
    }
}

/// The empty field of a role with no line.
pub open spec fn empty_line() -> (Seq<char>, Seq<char>, bool) {
    (Seq::empty(), Seq::empty(), false)
}

impl Project {
    /// The fields of the project's statistics posts, one list per
    /// associated role in order (see `line_for`; a role with no line gets
    /// one empty field).
    pub fn stat_fields(&self, stats: &Vec<(Option<u64>, Option<(String, String, bool)>)>) -> (r: Vec<(u64, Vec<(String, String, bool)>)>)
        ensures
            r@.len() == self.associated_roles@.len(),
            forall|i: int| 0 <= i < r@.len() ==> {
                &&& (#[trigger] r@[i]).0 == self.associated_roles@[i]
                &&& r@[i].1@.len() == 1
                &&& line_view(r@[i].1@[0]) == match line_for(stats@, self.associated_roles@[i]) {
                    Some(l) => l,
                    None => empty_line(),
                }
            },
    {
        let mut k: usize = 0;
        let mut found: Option<usize> = None;
        assert(stats@.subrange(0, stats@.len() as int) =~= stats@);
        while k < stats.len()
            invariant
                k <= stats@.len(),
                found is None ==> forall|role: u64| #[trigger] line_for(stats@, role) == line_for(
                    stats@.subrange(k as int, stats@.len() as int),
                    role,
                ),
                found matches Some(f) ==> f < stats@.len() && stats@[f as int].0 is Some && forall|role: u64|
                    #[trigger] line_for(stats@, role) == if stats@[f as int].0 == Some(role) {
                        match stats@[f as int].1 {
                            Some(l) => Some(line_view(l)),
                            None => None,
                        }
                    } else {
                        None
                    },
            decreases stats@.len() - k,
        {
            if found.is_none() {
                let ghost rest = stats@.subrange(k as int, stats@.len() as int);
                assert(rest[0] == stats@[k as int]);
                assert(rest.drop_first() =~= stats@.subrange(k + 1, stats@.len() as int));
                if stats[k].0.is_some() {
                    found = Some(k);
                    k = stats.len();
                } else {
                    k = k + 1;
                }
            } else {
                k = stats.len();
            }
        }
        proof {
            if found is None {
                assert(stats@.subrange(k as int, stats@.len() as int) =~= Seq::<(Option<u64>, Option<(String, String, bool)>)>::empty());
            }
        }
        let mut out: Vec<(u64, Vec<(String, String, bool)>)> = Vec::new();
        let mut i: usize = 0;
        while i < self.associated_roles.len()
            invariant
                i <= self.associated_roles@.len(),
                out@.len() == i,
                match found {
                    Some(f) => f < stats@.len() && stats@[f as int].0 is Some && forall|role: u64|
                        #[trigger] line_for(stats@, role) == if stats@[f as int].0 == Some(role) {
                            match stats@[f as int].1 {
                                Some(l) => Some(line_view(l)),
                                None => None,
                            }
                        } else {
                            None
                        },
                    None => forall|role: u64| #[trigger] line_for(stats@, role) is None,
                },
                forall|j: int| 0 <= j < i ==> {
                    &&& (#[trigger] out@[j]).0 == self.associated_roles@[j]
                    &&& out@[j].1@.len() == 1
                    &&& line_view(out@[j].1@[0]) == match line_for(stats@, self.associated_roles@[j]) {
                        Some(l) => l,
                        None => empty_line(),
                    }
                },
            decreases self.associated_roles@.len() - i,
        {
            let role = self.associated_roles[i];
            let line = match found {
                Some(f) => match &stats[f] {
                    (Some(r), Some(l)) => if *r == role {
                        (l.0.clone(), l.1.clone(), l.2)
                    } else {
                        (String::new(), String::new(), false)
                    },
                    _ => (String::new(), String::new(), false),
                },
                None => (String::new(), String::new(), false),
            };
            out.push((role, vec![line]));
            i = i + 1;
        }
        out
    }
}

} // verus!
