use vstd::prelude::*;

verus! {

/// The mathematical value of a [`Task`].
pub struct TaskView {
    pub id: nat,
    pub description: Seq<char>,
    pub priority: u32,
    pub tags: Seq<Seq<char>>,
}

/// A task record: an id (its position in the store), a free-text
/// description, a priority (higher is more urgent) and a list of tags, in
/// which a tag may occur more than once.
#[derive(Debug)]
pub struct Task {
    pub id: usize,
    pub description: String,
    pub priority: u32,
    pub tags: Vec<String>,
}

/// The characters of each tag, in order.
pub open spec fn tags_view(tags: Seq<String>) -> Seq<Seq<char>> {
    tags.map_values(|s: String| s@)
}

impl View for Task {
    type V = TaskView;

    open spec fn view(&self) -> TaskView {
        TaskView {
            id: self.id as nat,
            description: self.description@,
            priority: self.priority,
            tags: tags_view(self.tags@),
        }
    }
}

/// The view of an optional task.
pub open spec fn opt_view(r: Option<Task>) -> Option<TaskView> {
    match r {
        Some(t) => Some(t@),
        None => None,
    }
}

impl Clone for Task {
    fn clone(&self) -> (r: Self)
        ensures
            r@ == self@,
    {
        let tags = self.tags.clone();
        assert(tags@ =~= self.tags@);
        Task {
            id: self.id,
            description: self.description.clone(),
            priority: self.priority,
            tags,
        }
    }
}

} // verus!
