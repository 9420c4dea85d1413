//! The tag index: one entry per tag, each holding the ids of the tasks that
//! carry that tag, one id per occurrence of the tag.
use vstd::prelude::*;
use crate::task::tags_view;

verus! {

/// A tag and the ids listed under it.
pub struct TagEntry {
    pub tag: String,
    pub ids: Vec<usize>,
}

/// The ids of an entry, as natural numbers.
pub open spec fn ids_view(v: Seq<usize>) -> Seq<nat> {
    v.map_values(|x: usize| x as nat)
}

/// No two entries share a tag.
pub open spec fn keys_unique(e: Seq<TagEntry>) -> bool {
    forall|a: int, b: int| 0 <= a < b < e.len() ==> #[trigger] e[a].tag@ != #[trigger] e[b].tag@
}

/// Some entry has tag `t`.
pub open spec fn has_key(e: Seq<TagEntry>, t: Seq<char>) -> bool {
    exists|a: int| 0 <= a < e.len() && #[trigger] e[a].tag@ == t
}

/// The ids stored under `t`; empty where no entry has that tag.
pub open spec fn lookup(e: Seq<TagEntry>, t: Seq<char>) -> Seq<nat> {
    if has_key(e, t) {
        ids_view(e[choose|a: int| 0 <= a < e.len() && #[trigger] e[a].tag@ == t].ids@)
    } else {
        Seq::empty()
    }
}

/// How many times `t` occurs in `tags`.
pub open spec fn count_tag(tags: Seq<Seq<char>>, t: Seq<char>) -> nat
    decreases tags.len(),
{
    if tags.len() == 0 {
        0
    } else {
        count_tag(tags.drop_last(), t) + if tags.last() == t { 1nat } else { 0nat }
    }
}

/// `id`, `c` times over.
pub open spec fn repeat_id(id: nat, c: nat) -> Seq<nat> {
    Seq::new(c, |_k: int| id)
}

/// With unique tags, looking up an entry's tag yields that entry's ids.
pub proof fn lemma_lookup_at(e: Seq<TagEntry>, a: int)
    requires
        keys_unique(e),
        0 <= a < e.len(),
    ensures
        lookup(e, e[a].tag@) == ids_view(e[a].ids@),
{
    let t = e[a].tag@;
    assert(has_key(e, t));
    let b = choose|b: int| 0 <= b < e.len() && #[trigger] e[b].tag@ == t;
    if b < a {
        assert(e[b].tag@ != e[a].tag@);
    } else if a < b {
        assert(e[a].tag@ != e[b].tag@);
    }
}

/// Finds the entry of `tag`.
pub fn find(e: &Vec<TagEntry>, tag: &String) -> (r: Option<usize>)
    ensures
        match r {
            Some(a) => a < e@.len() && e@[a as int].tag@ == tag@,
            None => !has_key(e@, tag@),
        },
{
    let mut a: usize = 0;
    while a < e.len()
        invariant
            a <= e@.len(),
            forall|b: int| 0 <= b < a ==> #[trigger] e@[b].tag@ != tag@,
        decreases e@.len() - a,
    {
        if e[a].tag == *tag {
            return Some(a);
        }
        a = a + 1;
    }
    None
}

/// Appends `id` under `tag`, making the entry where there is none.
fn add_id(e: &mut Vec<TagEntry>, tag: &String, id: usize)
    requires
        keys_unique(old(e)@),
    ensures
        keys_unique(final(e)@),
        forall|t: Seq<char>| #[trigger] lookup(final(e)@, t) == if t == tag@ {
            lookup(old(e)@, t).push(id as nat)
        } else {
            lookup(old(e)@, t)
        },
{
    let ghost before = e@;
    match find(e, tag) {
        Some(a) => {
            e[a].ids.push(id);
            proof {
                assert(e@ == before.update(a as int, e@[a as int]));
                assert forall|t: Seq<char>| #[trigger] lookup(e@, t) == if t == tag@ {
                    lookup(before, t).push(id as nat)
                } else {
                    lookup(before, t)
                } by {
                    lemma_lookup_at(before, a as int);
                    lemma_lookup_at(e@, a as int);
                    assert(ids_view(e@[a as int].ids@) =~= ids_view(before[a as int].ids@).push(id as nat));
                    if t != tag@ {
                        if has_key(before, t) {
                            let b = choose|b: int| 0 <= b < before.len() && #[trigger] before[b].tag@ == t;
                            lemma_lookup_at(before, b);
                            lemma_lookup_at(e@, b);
                        } else {
                            assert(!has_key(e@, t));
                        }
                    }
                }
            }
        },
        None => {
            let mut ids: Vec<usize> = Vec::new();
            ids.push(id);
            e.push(TagEntry { tag: tag.clone(), ids });
            proof {
                let n = before.len() as int;
                assert forall|t: Seq<char>| #[trigger] lookup(e@, t) == if t == tag@ {
                    lookup(before, t).push(id as nat)
                } else {
                    lookup(before, t)
                } by {
                    lemma_lookup_at(e@, n);
                    assert(ids_view(e@[n].ids@) =~= seq![id as nat]);
                    if t != tag@ {
                        if has_key(before, t) {
                            let b = choose|b: int| 0 <= b < before.len() && #[trigger] before[b].tag@ == t;
                            lemma_lookup_at(before, b);
                            assert(e@[b] == before[b]);
                            lemma_lookup_at(e@, b);
                        } else {
                            assert forall|b: int| 0 <= b < e@.len() implies #[trigger] e@[b].tag@ != t by {
                                if b < n {
                                    assert(e@[b] == before[b]);
                                }
                            }
                        }
                    } else {
                        assert(lookup(before, t) =~= Seq::<nat>::empty());
                    }
                }
            }
        },
    }
}

/// Appends `id` under each tag of `tags`, once per occurrence.
pub fn add_tags(e: &mut Vec<TagEntry>, tags: &Vec<String>, id: usize)
    requires
        keys_unique(old(e)@),
    ensures
        keys_unique(final(e)@),
        forall|t: Seq<char>| #[trigger] lookup(final(e)@, t)
            == lookup(old(e)@, t) + repeat_id(id as nat, count_tag(tags_view(tags@), t)),
{
    let ghost tv = tags_view(tags@);
    let mut k: usize = 0;
    while k < tags.len()
        invariant
            k <= tags@.len(),
            tv == tags_view(tags@),
            keys_unique(e@),
            forall|t: Seq<char>| #[trigger] lookup(e@, t)
                == lookup(old(e)@, t) + repeat_id(id as nat, count_tag(tv.take(k as int), t)),
        decreases tags@.len() - k,
    {
        let ghost mid = e@;
        add_id(e, &tags[k], id);
        proof {
            assert forall|t: Seq<char>| #[trigger] lookup(e@, t)
                == lookup(old(e)@, t) + repeat_id(id as nat, count_tag(tv.take(k + 1), t)) by {
                assert(tv.take(k + 1).drop_last() =~= tv.take(k as int));
                assert(tv.take(k + 1).last() == tags@[k as int]@);
                let c = count_tag(tv.take(k as int), t);
                assert(repeat_id(id as nat, c + 1) =~= repeat_id(id as nat, c).push(id as nat));
                assert(lookup(old(e)@, t) + repeat_id(id as nat, c + 1)
                    =~= (lookup(old(e)@, t) + repeat_id(id as nat, c)).push(id as nat));
                assert(lookup(mid, t) == lookup(old(e)@, t) + repeat_id(id as nat, c));
            }
        }
        k = k + 1;
    }
    assert(tv.take(tags@.len() as int) =~= tv);
}

} // verus!
