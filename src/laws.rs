//! Properties of the store that hold across its operations.
use vstd::prelude::*;
use crate::store::{complete_result, id_set, ids_contiguous, is_head, peek_result, tag_ids, TaskManager};
use crate::tag_index::{count_tag, repeat_id};
use crate::task::TaskView;

verus! {

/// A tag is counted in a tag list exactly when the list contains it.
pub proof fn lemma_count_tag_positive(tags: Seq<Seq<char>>, t: Seq<char>)
    ensures
        count_tag(tags, t) > 0 <==> tags.contains(t),
    decreases tags.len(),
{
    if tags.len() > 0 {
        let init = tags.drop_last();
        lemma_count_tag_positive(init, t);
        if init.contains(t) {
            let k = choose|k: int| 0 <= k < init.len() && init[k] == t;
            assert(tags[k] == t);
        }
        if tags.contains(t) && tags.last() != t {
            let k = choose|k: int| 0 <= k < tags.len() && tags[k] == t;
            assert(init[k] == t);
        }
    }
}

/// Id `i` is listed under tag `t` exactly when task `i` carries `t`.
pub proof fn lemma_tag_ids_sound(s: Seq<TaskView>, t: Seq<char>, i: nat)
    ensures
        tag_ids(s, t).contains(i) <==> (i < s.len() && s[i as int].tags.contains(t)),
    decreases s.len(),
{
    if s.len() > 0 {
        let init = s.drop_last();
        let n = (s.len() - 1) as nat;
        let p = tag_ids(init, t);
        let c = count_tag(s.last().tags, t);
        let r = repeat_id(n, c);
        lemma_tag_ids_sound(init, t, i);
        lemma_count_tag_positive(s.last().tags, t);
        assert(tag_ids(s, t) == p + r);
        if i < n {
            assert(s[i as int] == init[i as int]);
        }
        if tag_ids(s, t).contains(i) {
            let k = choose|k: int| 0 <= k < tag_ids(s, t).len() && tag_ids(s, t)[k] == i;
            if k < p.len() {
                assert(p[k] == i);
            } else {
                assert(r[k - p.len()] == i);
            }
        }
        if i < s.len() && s[i as int].tags.contains(t) {
            if i < n {
                let k = choose|k: int| 0 <= k < p.len() && p[k] == i;
                assert((p + r)[k] == i);
            } else {
                assert((p + r)[p.len() as int] == i);
            }
        }
    }
}

/// After any sequence of operations the ids of the tasks are exactly
/// `0, 1, ..., n - 1`, each task's id being its position.
pub proof fn lemma_ids_contiguous(m: &TaskManager)
    requires
        m.wf(),
    ensures
        ids_contiguous(m@),
        id_set(m@) == Set::new(|x: nat| x < m@.len()),
{
    m.lemma_wf_ids();
    assert forall|x: nat| #[trigger] id_set(m@).contains(x) <==> x < m@.len() by {
        if x < m@.len() {
            assert(m@[x as int].id == x);
        }
    }
    assert(id_set(m@) =~= Set::new(|x: nat| x < m@.len()));
}

/// The tag index holds id `i` under tag `t` exactly when task `i` carries `t`.
pub proof fn lemma_tag_index_sound(m: &TaskManager, t: Seq<char>, i: nat)
    requires
        m.wf(),
    ensures
        m.ids_under(t).contains(i) <==> (i < m@.len() && m@[i as int].tags.contains(t)),
{
    m.lemma_wf_index(t);
    lemma_tag_ids_sound(m@, t, i);
}

/// Looking at the next task and then completing it yields the same task.
pub proof fn lemma_peek_complete_agree(
    s: Seq<TaskView>,
    p: Option<TaskView>,
    c: Option<TaskView>,
    after: Seq<TaskView>,
)
    requires
        peek_result(s, p),
        complete_result(s, c, after),
    ensures
        p == c,
{
    if s.len() > 0 {
        let j1 = choose|j: int| is_head(s, j) && p == Some(s[j]);
        let j2 = choose|j: int| is_head(s, j) && c == Some(s[j]) && after == crate::store::renumbered(s.remove(j));
        if j1 != j2 {
            assert(s[j1].priority < s[j2].priority || (s[j1].priority == s[j2].priority && j1 > j2));
            assert(s[j2].priority < s[j1].priority || (s[j2].priority == s[j1].priority && j2 > j1));
        }
    }
}

/// A tag that no task carries lists nothing.
pub proof fn lemma_absent_tag_empty(s: Seq<TaskView>, t: Seq<char>)
    requires
        forall|i: int| 0 <= i < s.len() ==> !(#[trigger] s[i].tags).contains(t),
    ensures
        tag_ids(s, t) == Seq::<nat>::empty(),
{
    if tag_ids(s, t).len() > 0 {
        let i = tag_ids(s, t)[0];
        assert(tag_ids(s, t).contains(i));
        lemma_tag_ids_sound(s, t, i);
        assert(s[i as int].tags.contains(t));
    }
    assert(tag_ids(s, t) =~= Seq::<nat>::empty());
}

/// On an empty store there is no next task to look at or to complete, and
/// completing leaves the store as it was.
pub proof fn lemma_empty_store_none(p: Option<TaskView>, c: Option<TaskView>, after: Seq<TaskView>)
    requires
        peek_result(Seq::<TaskView>::empty(), p),
        complete_result(Seq::<TaskView>::empty(), c, after),
    ensures
        p is None,
        c is None,
        after == Seq::<TaskView>::empty(),
{
}

} // verus!
