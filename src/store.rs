//! The task store and the model its contracts are stated over.
use vstd::prelude::*;
use crate::priority::{insert_sorted, pair_lt, strictly_sorted};
use crate::tag_index::{add_tags, count_tag, find, keys_unique, lemma_lookup_at, lookup, repeat_id, TagEntry};
use crate::task::{opt_view, tags_view, Task, TaskView};

verus! {

/// Each task's id is its position.
pub open spec fn ids_contiguous(s: Seq<TaskView>) -> bool {
    forall|i: int| 0 <= i < s.len() ==> #[trigger] s[i].id == i
}

/// The set of ids held by the tasks of `s`.
pub open spec fn id_set(s: Seq<TaskView>) -> Set<nat> {
    Set::new(|x: nat| exists|i: int| 0 <= i < s.len() && #[trigger] s[i].id == x)
}

/// The ids listed under tag `t`: the positions of the tasks in order, each
/// repeated as often as its task carries `t`.
pub open spec fn tag_ids(s: Seq<TaskView>, t: Seq<char>) -> Seq<nat>
    decreases s.len(),
{
    if s.len() == 0 {
        Seq::empty()
    } else {
        tag_ids(s.drop_last(), t) + repeat_id((s.len() - 1) as nat, count_tag(s.last().tags, t))
    }
}

/// Position `j` holds the head of the priority order: the highest priority,
/// and among equal priorities the lowest id.
pub open spec fn is_head(s: Seq<TaskView>, j: int) -> bool {
    &&& 0 <= j < s.len()
    &&& forall|i: int|
        0 <= i < s.len() && i != j ==> #[trigger] s[i].priority < s[j].priority || (s[i].priority
            == s[j].priority && i > j)
}

/// `s` with every id reset to its position.
pub open spec fn renumbered(s: Seq<TaskView>) -> Seq<TaskView> {
    Seq::new(
        s.len(),
        |i: int|
            TaskView {
                id: i as nat,
                description: s[i].description,
                priority: s[i].priority,
                tags: s[i].tags,
            },
    )
}

/// What looking at the next task of `s` yields.
pub open spec fn peek_result(s: Seq<TaskView>, r: Option<TaskView>) -> bool {
    match r {
        None => s.len() == 0,
        Some(t) => exists|j: int| is_head(s, j) && t == s[j],
    }
}

/// What completing the next task of `s` yields, and the tasks left after.
pub open spec fn complete_result(s: Seq<TaskView>, r: Option<TaskView>, after: Seq<TaskView>) -> bool {
    match r {
        None => s.len() == 0 && after == s,
        Some(t) => exists|j: int| is_head(s, j) && t == s[j] && after == renumbered(s.remove(j)),
    }
}

/// `out` is every task of `s` once, by descending priority, and among equal
/// priorities by ascending id.
pub open spec fn listed(s: Seq<TaskView>, out: Seq<TaskView>) -> bool {
    &&& out.len() == s.len()
    &&& forall|k: int| 0 <= k < out.len() ==> #[trigger] out[k].id < s.len() && out[k] == s[out[k].id as int]
    &&& forall|a: int, b: int|
        0 <= a < b < out.len() ==> #[trigger] out[b].priority < #[trigger] out[a].priority || (out[b].priority
            == out[a].priority && out[b].id > out[a].id)
    &&& forall|i: int| 0 <= i < s.len() ==> out.contains(#[trigger] s[i])
}

/// `out` is the tasks listed under `t`, in the order of the listing.
pub open spec fn tagged(s: Seq<TaskView>, t: Seq<char>, out: Seq<TaskView>) -> bool {
    &&& out.len() == tag_ids(s, t).len()
    &&& forall|k: int| 0 <= k < out.len() ==> #[trigger] out[k] == s[tag_ids(s, t)[k] as int]
}

/// The priority view `q` holds exactly one `(priority, id)` pair for each of
/// the first `n` tasks of `s`, in strictly increasing order.
pub open spec fn queue_models(q: Seq<(u32, usize)>, s: Seq<TaskView>, n: int) -> bool {
    &&& strictly_sorted(q)
    &&& q.len() == n
    &&& forall|x: (u32, usize)| #[trigger] q.contains(x) <==> (x.1 < n && x.0 == s[x.1 as int].priority)
}

/// The store: the tasks, their priority view and their tag index.
pub struct TaskManager {
    tasks: Vec<Task>,
    queue: Vec<(u32, usize)>,
    tag_index: Vec<TagEntry>,
}

impl View for TaskManager {
    type V = Seq<TaskView>;

    closed spec fn view(&self) -> Seq<TaskView> {
        self.tasks@.map_values(|t: Task| t@)
    }
}

/// Every id listed under a tag is the position of a task.
pub proof fn lemma_tag_ids_bound(s: Seq<TaskView>, t: Seq<char>)
    ensures
        forall|k: int| 0 <= k < tag_ids(s, t).len() ==> #[trigger] tag_ids(s, t)[k] < s.len(),
    decreases s.len(),
{
    if s.len() > 0 {
        let p = tag_ids(s.drop_last(), t);
        lemma_tag_ids_bound(s.drop_last(), t);
        assert forall|k: int| 0 <= k < tag_ids(s, t).len() implies #[trigger] tag_ids(s, t)[k] < s.len() by {
            if k < p.len() {
                assert(tag_ids(s, t)[k] == p[k]);
            }
        }
    }
}

/// The listing under a tag depends on the tasks' tags alone.
pub proof fn lemma_tag_ids_tags_only(s1: Seq<TaskView>, s2: Seq<TaskView>, t: Seq<char>)
    requires
        s1.len() == s2.len(),
        forall|i: int| 0 <= i < s1.len() ==> #[trigger] s1[i].tags == s2[i].tags,
    ensures
        tag_ids(s1, t) == tag_ids(s2, t),
    decreases s1.len(),
{
    if s1.len() > 0 {
        lemma_tag_ids_tags_only(s1.drop_last(), s2.drop_last(), t);
    }
}

impl TaskManager {
    /// The store's three views agree.
    pub closed spec fn wf(&self) -> bool {
        &&& ids_contiguous(self@)
        &&& queue_models(self.queue@, self@, self@.len() as int)
        &&& keys_unique(self.tag_index@)
        &&& forall|t: Seq<char>| #[trigger] lookup(self.tag_index@, t) == tag_ids(self@, t)
    }

    /// The ids that the tag index holds under `t`.
    pub closed spec fn ids_under(&self, t: Seq<char>) -> Seq<nat> {
        lookup(self.tag_index@, t)
    }

    /// An empty store.
    pub fn new() -> (r: Self)
        ensures
            r.wf(),
            r@ == Seq::<TaskView>::empty(),
    {
        let r = TaskManager { tasks: Vec::new(), queue: Vec::new(), tag_index: Vec::new() };
        assert(r@ =~= Seq::<TaskView>::empty());
        assert forall|t: Seq<char>| #[trigger] lookup(r.tag_index@, t) == tag_ids(r@, t) by {
            assert(lookup(r.tag_index@, t) =~= Seq::<nat>::empty());
        }
        r
    }

    /// Appends a task and returns its id, the number of tasks before it.
    pub fn add_task(&mut self, description: String, priority: u32, tags: Vec<String>) -> (r: usize)
        requires
            old(self).wf(),
        ensures
            final(self).wf(),
            r == old(self)@.len(),
            final(self)@ == old(self)@.push(
                TaskView { id: r as nat, description: description@, priority, tags: tags_view(tags@) },
            ),
    {
        let ghost s = self@;
        let id = self.tasks.len();
        add_tags(&mut self.tag_index, &tags, id);
        proof {
            assert(!self.queue@.contains((priority, id)));
        }
        insert_sorted(&mut self.queue, (priority, id));
        let ghost tv = TaskView { id: id as nat, description: description@, priority, tags: tags_view(tags@) };
        self.tasks.push(Task { id, description, priority, tags });
        proof {
            assert(self@ =~= s.push(tv));
            assert(self@.drop_last() =~= s);
            assert forall|x: (u32, usize)| #[trigger] self.queue@.contains(x) <==> (x.1 < s.len() + 1
                && x.0 == self@[x.1 as int].priority) by {
                if x.1 < s.len() {
                    assert(self@[x.1 as int] == s[x.1 as int]);
                }
            }
        }
        id
    }

    /// The task at the head of the priority view, without changing the store.
    pub fn peek_next(&self) -> (r: Option<Task>)
        requires
            self.wf(),
        ensures
            peek_result(self@, opt_view(r)),
            match r {
                Some(t) => forall|i: int| 0 <= i < self@.len() ==> #[trigger] self@[i].priority <= t.priority,
                None => true,
            },
    {
        let len = self.queue.len();
        if len == 0 {
            proof {
                if self@.len() > 0 {
                    assert(self.queue@.contains((self@[0].priority, 0usize)));
                }
            }
            None
        } else {
            let id = self.queue[len - 1].1;
            proof {
                assert(self.queue@.contains(self.queue@[len - 1]));
                self.lemma_last_is_head();
            }
            let t = self.tasks[id].clone();
            proof {
                lemma_head_max(self@, id as int);
            }
            Some(t)
        }
    }

    /// Resets every task's id to its position and builds the priority view
    /// and the tag index anew from the tasks.
    fn rebuild(&mut self)
        ensures
            final(self).wf(),
            final(self)@ == renumbered(old(self)@),
    {
        let ghost s = self@;
        let ghost target = renumbered(s);
        self.queue.clear();
        self.tag_index.clear();
        let n = self.tasks.len();
        let mut i: usize = 0;
        proof {
            assert forall|t: Seq<char>| #[trigger] lookup(self.tag_index@, t) == tag_ids(s.take(0), t) by {
                assert(lookup(self.tag_index@, t) =~= Seq::<nat>::empty());
                assert(s.take(0).len() == 0);
            }
            assert forall|x: (u32, usize)| #[trigger] self.queue@.contains(x) <==> (x.1 < 0 && x.0
                == target[x.1 as int].priority) by {}
        }
        while i < n
            invariant
                n == self.tasks@.len(),
                s.len() == n,
                target == renumbered(s),
                i <= n,
                forall|k: int| 0 <= k < i ==> #[trigger] self.tasks@[k]@ == target[k],
                forall|k: int| i <= k < n ==> #[trigger] self.tasks@[k]@ == s[k],
                queue_models(self.queue@, target, i as int),
                keys_unique(self.tag_index@),
                forall|t: Seq<char>| #[trigger] lookup(self.tag_index@, t) == tag_ids(s.take(i as int), t),
            decreases n - i,
        {
            proof {
                assert(self.tasks@[i as int]@ == s[i as int]);
            }
            self.tasks[i].id = i;
            let ghost q0 = self.queue@;
            proof {
                assert(!q0.contains((self.tasks[i as int].priority, i)));
            }
            insert_sorted(&mut self.queue, (self.tasks[i].priority, i));
            let ghost e0 = self.tag_index@;
            add_tags(&mut self.tag_index, &self.tasks[i].tags, i);
            proof {
                assert(self.tasks@[i as int]@ == target[i as int]);
                assert forall|x: (u32, usize)| #[trigger] self.queue@.contains(x) <==> (x.1 < i + 1
                    && x.0 == target[x.1 as int].priority) by {}
                assert forall|t: Seq<char>| #[trigger] lookup(self.tag_index@, t) == tag_ids(
                    s.take(i + 1),
                    t,
                ) by {
                    assert(s.take(i + 1).drop_last() =~= s.take(i as int));
                    assert(lookup(e0, t) == tag_ids(s.take(i as int), t));
                }
            }
            i = i + 1;
        }
        proof {
            assert(self@ =~= target);
            assert(s.take(n as int) =~= s);
            assert forall|t: Seq<char>| #[trigger] lookup(self.tag_index@, t) == tag_ids(self@, t) by {
                lemma_tag_ids_tags_only(s, self@, t);
            }
        }
    }

    /// Removes the task at the head of the priority view and returns it, with
    /// the id it had; the tasks after it move down one place.
    pub fn complete_next(&mut self) -> (r: Option<Task>)
        requires
            old(self).wf(),
        ensures
            final(self).wf(),
            complete_result(old(self)@, opt_view(r), final(self)@),
    {
        let ghost s = self@;
        match self.queue.pop() {
            None => {
                proof {
                    if s.len() > 0 {
                        assert(self.queue@.contains((s[0].priority, 0usize)));
                    }
                }
                None
            },
            Some(head) => {
                // The head's id always names a live task: the priority view
                // is rebuilt after every removal.
                let id = head.1;
                proof {
                    assert(self.queue@ == old(self).queue@.drop_last());
                    old(self).lemma_last_is_head();
                }
                let task = self.tasks.remove(id);
                proof {
                    assert(self@ =~= s.remove(id as int));
                }
                self.rebuild();
                Some(task)
            },
        }
    }

    /// Every task, by descending priority and among equal priorities by
    /// ascending id: the order in which they would be completed.
    pub fn list_tasks(&self) -> (r: Vec<Task>)
        requires
            self.wf(),
        ensures
            listed(self@, r@.map_values(|t: Task| t@)),
    {
        let q = &self.queue;
        let len = q.len();
        let mut out: Vec<Task> = Vec::new();
        let mut k: usize = len;
        while k > 0
            invariant
                self.wf(),
                len == q@.len(),
                q == &self.queue,
                k <= len,
                out@.len() == len - k,
                forall|m: int| 0 <= m < out@.len() ==> #[trigger] out@[m]@ == self@[q@[len - 1 - m].1 as int]
                    && q@[len - 1 - m].1 < self@.len(),
            decreases k,
        {
            k = k - 1;
            let id = q[k].1;
            proof {
                assert(q@.contains(q@[k as int]));
            }
            let t = self.tasks[id].clone();
            out.push(t);
        }
        proof {
            let s = self@;
            let ov = out@.map_values(|t: Task| t@);
            assert forall|m: int| 0 <= m < ov.len() implies #[trigger] ov[m].id < s.len() && ov[m] == s[ov[m].id as int] by {
                assert(q@.contains(q@[len - 1 - m]));
            }
            assert forall|a: int, b: int| 0 <= a < b < ov.len() implies #[trigger] ov[b].priority < #[trigger] ov[a].priority || (ov[b].priority
                == ov[a].priority && ov[b].id > ov[a].id) by {
                let qa = len - 1 - a;
                let qb = len - 1 - b;
                assert(q@.contains(q@[qa]));
                assert(q@.contains(q@[qb]));
                assert(pair_lt(q@[qb], q@[qa]));
            }
            assert forall|i: int| 0 <= i < s.len() implies ov.contains(#[trigger] s[i]) by {
                assert(s[i] == self.tasks@[i]@);
                assert(s[i].id == i);
                let x = (s[i].priority, i as usize);
                assert(q@.contains(x));
                let j = choose|j: int| 0 <= j < q@.len() && q@[j] == x;
                assert(ov[len - 1 - j] == s[i]);
            }
        }
        out
    }

    /// The tasks listed under `tag` (compared exactly), in the order of the
    /// listing; empty where no task carries it.
    pub fn tasks_by_tag(&self, tag: &str) -> (r: Vec<&Task>)
        requires
            self.wf(),
        ensures
            tagged(self@, tag@, r@.map_values(|t: &Task| t@)),
    {
        let key = tag.to_owned();
        let mut out: Vec<&Task> = Vec::new();
        match find(&self.tag_index, &key) {
            None => {
                proof {
                    assert(lookup(self.tag_index@, tag@) =~= Seq::<nat>::empty());
                    assert(tag_ids(self@, tag@).len() == 0);
                }
            },
            Some(a) => {
                let ids = &self.tag_index[a].ids;
                let ghost want = tag_ids(self@, tag@);
                proof {
                    lemma_lookup_at(self.tag_index@, a as int);
                    lemma_tag_ids_bound(self@, tag@);
                    assert(ids@.len() == want.len());
                }
                let mut j: usize = 0;
                while j < ids.len()
                    invariant
                        self.wf(),
                        want == tag_ids(self@, tag@),
                        ids@.len() == want.len(),
                        forall|m: int| 0 <= m < want.len() ==> #[trigger] want[m] == ids@[m] as nat,
                        forall|m: int| 0 <= m < want.len() ==> #[trigger] want[m] < self@.len(),
                        j <= ids@.len(),
                        out@.len() == j,
                        forall|m: int| 0 <= m < j ==> #[trigger] out@[m]@ == self@[want[m] as int],
                    decreases ids@.len() - j,
                {
                    assert(want[j as int] == ids@[j as int] as nat);
                    let t = &self.tasks[ids[j]];
                    out.push(t);
                    j = j + 1;
                }
            },
        }
        proof {
            let ov = out@.map_values(|t: &Task| t@);
            assert(ov.len() == out@.len());
        }
        out
    }

    /// A well-formed store numbers its tasks by position.
    pub proof fn lemma_wf_ids(&self)
        requires
            self.wf(),
        ensures
            ids_contiguous(self@),
    {
    }

    /// A well-formed store's tag index holds, under each tag, the listing
    /// of that tag.
    pub proof fn lemma_wf_index(&self, t: Seq<char>)
        requires
            self.wf(),
        ensures
            self.ids_under(t) == tag_ids(self@, t),
    {
    }

    /// The last entry of the priority view is the head of the tasks.
    proof fn lemma_last_is_head(&self)
        requires
            self.wf(),
            self.queue@.len() > 0,
        ensures
            self.queue@.last().1 < self@.len(),
            is_head(self@, self.queue@.last().1 as int),
    {
        let q = self.queue@;
        let last = q.len() - 1;
        assert(q.contains(q[last]));
        let j = q[last].1 as int;
        assert forall|i: int| 0 <= i < self@.len() && i != j implies #[trigger] self@[i].priority
            < self@[j].priority || (self@[i].priority == self@[j].priority && i > j) by {
            assert(self@[i] == self.tasks@[i]@);
            assert(self@[i].id == i);
            let x = (self@[i].priority, i as usize);
            assert(q.contains(x));
            let k = choose|k: int| 0 <= k < q.len() && q[k] == x;
            assert(k != last);
            assert(pair_lt(q[k], q[last]));
        }
    }
}

/// The task at the head has a priority no lower than any other.
pub proof fn lemma_head_max(s: Seq<TaskView>, j: int)
    requires
        is_head(s, j),
    ensures
        forall|i: int| 0 <= i < s.len() ==> #[trigger] s[i].priority <= s[j].priority,
{
}

} // verus!
