//! Forum tags and what they mean for the tasks that carry them.
use vstd::prelude::*;
use crate::maps::IdMap;

verus! {

/// The role a tag plays on a task thread.
#[derive(PartialEq, Eq, Structural, Clone, Copy, Debug)]
pub enum TageTypes {
    Base,
    ClosedTask,
    InWork,
}

/// The name of a tag type, as used in locale keys.
pub open spec fn tag_type_name(t: TageTypes) -> Seq<char> {
    match t {
        TageTypes::Base => seq!['b', 'a', 's', 'e'],
        TageTypes::ClosedTask => seq!['c', 'l', 'o', 's', 'e', 'd', 't', 'a', 's', 'k'],
        TageTypes::InWork => seq!['i', 'n', 'w', 'o', 'r', 'k'],
    }
}

impl TageTypes {
    /// The name of the type: `base`, `closedtask` or `inwork`.
    pub fn to_string(&self) -> (r: String)
        ensures
            r@ == tag_type_name(*self),
    {
        let s = match self {
            TageTypes::Base => "base",
            TageTypes::ClosedTask => "closedtask",
            TageTypes::InWork => "inwork",
        };
        proof {
            reveal_strlit("base");
            reveal_strlit("closedtask");
            reveal_strlit("inwork");
        }
        let r = s.to_owned();
        assert(r@ =~= tag_type_name(*self));
        r
    }
}

/// The settings that one forum tag gives to the tasks that carry it.
#[derive(Debug, Clone)]
pub struct TaskTag {
    pub id: u64,
    pub forum_id: u64,
    pub tag_type: Option<TageTypes>,
    pub max_members: Option<u32>,
    pub score_modifier: Option<i64>,
    pub task_project: Option<String>,
    pub ping_role: Option<u64>,
}

impl TaskTag {
    /// A tag with no settings.
    pub fn new(id: u64, forum_id: u64) -> (t: Self)
        ensures
            t.id == id,
            t.forum_id == forum_id,
            t.tag_type is None,
            t.max_members is None,
            t.score_modifier is None,
            t.task_project is None,
            t.ping_role is None,
    {
        TaskTag {
            id,
            forum_id,
            tag_type: None,
            max_members: None,
            score_modifier: None,
            task_project: None,
            ping_role: None,
        }
    }

    /// Sets the type, returning the previous one.
    pub fn set_tag_type(&mut self, tag_type: Option<TageTypes>) -> (prev: Option<TageTypes>)
        ensures
            final(self).tag_type == tag_type,
            prev == old(self).tag_type,
            final(self).id == old(self).id,
            final(self).forum_id == old(self).forum_id,
            final(self).max_members == old(self).max_members,
            final(self).score_modifier == old(self).score_modifier,
            final(self).task_project == old(self).task_project,
            final(self).ping_role == old(self).ping_role,
    {
        let prev = self.tag_type;
        self.tag_type = tag_type;
        prev
    }

    /// Sets the member limit, returning the previous one.
    pub fn set_max_members(&mut self, max_members: Option<u32>) -> (prev: Option<u32>)
        ensures
            final(self).max_members == max_members,
            prev == old(self).max_members,
            final(self).id == old(self).id,
            final(self).forum_id == old(self).forum_id,
            final(self).tag_type == old(self).tag_type,
            final(self).score_modifier == old(self).score_modifier,
            final(self).task_project == old(self).task_project,
            final(self).ping_role == old(self).ping_role,
    {
        let prev = self.max_members;
        self.max_members = max_members;
        prev
    }

    /// Sets the score modifier, returning the previous one.
    pub fn set_score_modifier(&mut self, score_modifier: Option<i64>) -> (prev: Option<i64>)
        ensures
            final(self).score_modifier == score_modifier,
            prev == old(self).score_modifier,
            final(self).id == old(self).id,
            final(self).forum_id == old(self).forum_id,
            final(self).tag_type == old(self).tag_type,
            final(self).max_members == old(self).max_members,
            final(self).task_project == old(self).task_project,
            final(self).ping_role == old(self).ping_role,
    {
        let prev = self.score_modifier;
        self.score_modifier = score_modifier;
        prev
    }

    /// Sets the project that tasks with this tag belong to, returning the
    /// previous one.
    pub fn set_task_project(&mut self, task_project: Option<String>) -> (prev: Option<String>)
        ensures
            final(self).task_project == task_project,
            prev == old(self).task_project,
            final(self).id == old(self).id,
            final(self).forum_id == old(self).forum_id,
            final(self).tag_type == old(self).tag_type,
            final(self).max_members == old(self).max_members,
            final(self).score_modifier == old(self).score_modifier,
            final(self).ping_role == old(self).ping_role,
    {
        let mut prev = task_project;
        std::mem::swap(&mut prev, &mut self.task_project);
        prev
    }

    /// Sets the role to ping on new tasks with this tag, returning the
    /// previous one.
    pub fn set_ping_role(&mut self, ping_role: Option<u64>) -> (prev: Option<u64>)
        ensures
            final(self).ping_role == ping_role,
            prev == old(self).ping_role,
            final(self).id == old(self).id,
            final(self).forum_id == old(self).forum_id,
            final(self).tag_type == old(self).tag_type,
            final(self).max_members == old(self).max_members,
            final(self).score_modifier == old(self).score_modifier,
            final(self).task_project == old(self).task_project,
    {
        let prev = self.ping_role;
        self.ping_role = ping_role;
        prev
    }

    /// A copy of the tag.
    pub fn clone_tag(&self) -> (t: Self)
        ensures
            t == *self,
    {
        TaskTag {
            id: self.id,
            forum_id: self.forum_id,
            tag_type: self.tag_type,
            max_members: self.max_members,
            score_modifier: self.score_modifier,
            task_project: match &self.task_project {
                Some(p) => Some(p.clone()),
                None => None,
            },
            ping_role: self.ping_role,
        }
    }
}

/// The ids among `ids` of registered tags of type `t`, in order.
pub open spec fn ids_of_type(ids: Seq<u64>, tags: Map<u64, TaskTag>, t: TageTypes) -> Seq<u64>
    decreases ids.len(),
{
    if ids.len() == 0 {
        Seq::empty()
    } else {
        let rest = ids_of_type(ids.drop_last(), tags, t);
        let id = ids.last();
        if tags.dom().contains(id) && tags[id].tag_type == Some(t) {
            rest.push(id)
        } else {
            rest
        }
    }
}

/// The tags of a type picked from `ids` are exactly those ids that name a
/// registered tag of that type: no tag of another type (a base tag
/// included) is ever listed for it.
pub proof fn law_ids_of_type_are_of_that_type(ids: Seq<u64>, tags: Map<u64, TaskTag>, t: TageTypes, x: u64)
    ensures
        ids_of_type(ids, tags, t).contains(x) <==> ids.contains(x) && tags.dom().contains(x) && tags[x].tag_type
            == Some(t),
    decreases ids.len(),
{
    if ids.len() > 0 {
        let init = ids.drop_last();
        law_ids_of_type_are_of_that_type(init, tags, t, x);
        let rest = ids_of_type(init, tags, t);
        assert(ids =~= init.push(ids.last()));
        assert(ids.contains(x) <==> init.contains(x) || ids.last() == x) by {
            if ids.contains(x) {
                let w = choose|w: int| 0 <= w < ids.len() && ids[w] == x;
                if w < ids.len() - 1 {
                    assert(init[w] == x);
                }
            }
            if init.contains(x) {
                let w = choose|w: int| 0 <= w < init.len() && init[w] == x;
                assert(ids[w] == x);
            }
        }
        let id = ids.last();
        if tags.dom().contains(id) && tags[id].tag_type == Some(t) {
            assert(rest.push(id).contains(x) <==> rest.contains(x) || id == x) by {
                if rest.push(id).contains(x) {
                    let w = choose|w: int| 0 <= w < rest.push(id).len() && rest.push(id)[w] == x;
                    if w < rest.len() {
                        assert(rest[w] == x);
                    }
                }
                if rest.contains(x) {
                    let w = choose|w: int| 0 <= w < rest.len() && rest[w] == x;
                    assert(rest.push(id)[w] == x);
                }
                if id == x {
                    assert(rest.push(id)[rest.len() as int] == x);
                }
            }
        }
    }
}

/// All the known tags, and the tags of each forum in registration order.
pub struct TagsManager {
    pub tags: IdMap<TaskTag>,
    pub tags_by_channel: IdMap<Vec<u64>>,
}

impl TagsManager {
    /// A manager with no tags.
    pub fn new() -> (m: Self)
        ensures
            m.tags@ == Map::<u64, TaskTag>::empty(),
            m.tags_by_channel@ == Map::<u64, Vec<u64>>::empty(),
    {
        TagsManager { tags: IdMap::new(), tags_by_channel: IdMap::new() }
    }

    /// The tag ids registered for `forum`, oldest first.
    pub open spec fn forum_ids(&self, forum: u64) -> Seq<u64> {
        if self.tags_by_channel@.dom().contains(forum) {
            self.tags_by_channel@[forum]@
        } else {
            Seq::empty()
        }
    }

    /// Registers a tag (read from the data files, or new): it is stored by
    /// id and listed last among the tags of its forum.
    pub fn register(&mut self, tag: TaskTag)
        ensures
            final(self).tags@ == old(self).tags@.insert(tag.id, tag),
            final(self).tags_by_channel@.dom().contains(tag.forum_id),
            final(self).forum_ids(tag.forum_id) == old(self).forum_ids(tag.forum_id).push(tag.id),
            forall|f: u64|
                f != tag.forum_id ==> #[trigger] final(self).forum_ids(f) == old(self).forum_ids(
                    f,
                ),
    {
        let id = tag.id;
        let forum = tag.forum_id;
        self.tags.insert(id, tag);
        let mut list = match self.tags_by_channel.remove(&forum) {
            Some(l) => l,
            None => Vec::new(),
        };
        list.push(id);
        self.tags_by_channel.insert(forum, list);
    }

    /// Registers a new tag with no settings for `forum_id`.
    pub fn new_tag(&mut self, tag_id: u64, forum_id: u64)
        ensures
            final(self).tags@.dom().contains(tag_id),
            final(self).tags@[tag_id].forum_id == forum_id,
            final(self).tags@[tag_id].tag_type is None,
            final(self).tags@[tag_id].max_members is None,
            final(self).tags@[tag_id].score_modifier is None,
            final(self).tags@[tag_id].task_project is None,
            final(self).tags@[tag_id].ping_role is None,
            final(self).tags@.remove(tag_id) == old(self).tags@.remove(tag_id),
            final(self).forum_ids(forum_id) == old(self).forum_ids(forum_id).push(tag_id),
            forall|f: u64|
                f != forum_id ==> #[trigger] final(self).forum_ids(f) == old(self).forum_ids(f),
    {
        self.register(TaskTag::new(tag_id, forum_id));
        proof {
            assert(self.tags@.remove(tag_id) =~= old(self).tags@.remove(tag_id));
        }
    }

    /// The tag with id `id`.
    pub fn get(&self, id: u64) -> (r: Option<&TaskTag>)
        ensures
            match r {
                Some(t) => self.tags@.dom().contains(id) && self.tags@[id] == *t,
                None => !self.tags@.dom().contains(id),
            },
    {
        self.tags.get(&id)
    }

    /// Replaces the stored tag with the same id (after changing a setting).
    pub fn put(&mut self, tag: TaskTag)
        ensures
            final(self).tags@ == old(self).tags@.insert(tag.id, tag),
            final(self).tags_by_channel@ == old(self).tags_by_channel@,
    {
        let id = tag.id;
        self.tags.insert(id, tag);
    }

    /// The tags of `forum`, in registration order; `None` when the forum
    /// has no tag list or lists a tag that is not stored.
    pub fn get_forum_tags(&self, forum: u64) -> (r: Option<Vec<TaskTag>>)
        ensures
            match r {
                Some(v) => self.tags_by_channel@.dom().contains(forum) && v@.len() == self.forum_ids(
                    forum,
                ).len() && forall|i: int|
                    0 <= i < v@.len() ==> self.tags@.dom().contains(#[trigger] self.forum_ids(forum)[i])
                        && v@[i] == self.tags@[self.forum_ids(forum)[i]],
                None => !self.tags_by_channel@.dom().contains(forum) || exists|i: int|
                    0 <= i < self.forum_ids(forum).len() && !self.tags@.dom().contains(
                        #[trigger] self.forum_ids(forum)[i],
                    ),
            },
    {
        let ids = match self.tags_by_channel.get(&forum) {
            Some(ids) => ids,
            None => {
                return None;
            },
        };
        let mut out: Vec<TaskTag> = Vec::new();
        let mut i: usize = 0;
        while i < ids.len()
            invariant
                ids@ == self.forum_ids(forum),
                i <= ids@.len(),
                out@.len() == i,
                forall|j: int|
                    0 <= j < i ==> self.tags@.dom().contains(#[trigger] ids@[j]) && out@[j]
                        == self.tags@[ids@[j]],
            decreases ids@.len() - i,
        {
            match self.tags.get(&ids[i]) {
                Some(t) => {
                    out.push(t.clone_tag());
                },
                None => {
                    return None;
                },
            }
            i = i + 1;
        }
        Some(out)
    }

    /// The ids of the tags of `forum` that have type `tag_type`, in
    /// registration order; `None` when the forum has no tag list.
    pub fn get_by_type(&self, forum: u64, tag_type: TageTypes) -> (r: Option<Vec<u64>>)
        ensures
            match r {
                Some(v) => self.tags_by_channel@.dom().contains(forum) && v@ == ids_of_type(
                    self.forum_ids(forum),
                    self.tags@,
                    tag_type,
                ),
                None => !self.tags_by_channel@.dom().contains(forum),
            },
    {
        let ids = match self.tags_by_channel.get(&forum) {
            Some(ids) => ids,
            None => {
                return None;
            },
        };
        let mut out: Vec<u64> = Vec::new();
        let mut i: usize = 0;
        while i < ids.len()
            invariant
                i <= ids@.len(),
                out@ == ids_of_type(ids@.subrange(0, i as int), self.tags@, tag_type),
            decreases ids@.len() - i,
        {
            proof {
                assert(ids@.subrange(0, i + 1).drop_last() =~= ids@.subrange(0, i as int));
            }
            match self.tags.get(&ids[i]) {
                Some(t) => {
                    if t.tag_type == Some(tag_type) {
                        out.push(ids[i]);
                    }
                },
                None => {},
            }
            i = i + 1;
        }
        proof {
            assert(ids@.subrange(0, ids@.len() as int) =~= ids@);
        }
        Some(out)
    }
}

} // verus!
