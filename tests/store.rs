use task_manager::{Task, TaskManager};

fn tags(list: &[&str]) -> Vec<String> {
    list.iter().map(|s| s.to_string()).collect()
}

fn sample() -> TaskManager {
    let mut m = TaskManager::new();
    assert_eq!(m.add_task("Write report".to_string(), 5, tags(&["work", "urgent"])), 0);
    assert_eq!(m.add_task("Buy milk".to_string(), 1, tags(&["home"])), 1);
    assert_eq!(m.add_task("Fix bug".to_string(), 5, tags(&["work"])), 2);
    m
}

fn descriptions(list: &[Task]) -> Vec<String> {
    list.iter().map(|t| t.description.clone()).collect()
}

#[test]
fn scenario_add_list_tag_complete() {
    let mut m = sample();

    let listed = m.list_tasks();
    assert_eq!(listed.len(), 3);
    assert_eq!(listed[0].priority, 5);
    assert_eq!(listed[1].priority, 5);
    assert_eq!(listed[2].description, "Buy milk");
    assert_eq!(descriptions(&listed), vec!["Write report", "Fix bug", "Buy milk"]);

    let work = m.tasks_by_tag("work");
    let ids: Vec<usize> = work.iter().map(|t| t.id).collect();
    assert_eq!(ids, vec![0, 2]);
    assert_eq!(work[0].description, "Write report");
    assert_eq!(work[1].description, "Fix bug");

    let done = m.complete_next().unwrap();
    assert_eq!(done.description, "Write report");
    assert_eq!(done.priority, 5);
    assert_eq!(done.id, 0);

    let rest = m.list_tasks();
    assert_eq!(rest.len(), 2);
    let milk = rest.iter().find(|t| t.description == "Buy milk").unwrap();
    assert_eq!(milk.id, 0);
    let bug = rest.iter().find(|t| t.description == "Fix bug").unwrap();
    assert_eq!(bug.id, 1);

    let work = m.tasks_by_tag("work");
    assert_eq!(work.len(), 1);
    assert_eq!(work[0].description, "Fix bug");
    assert_eq!(work[0].id, 1);
    assert!(m.tasks_by_tag("urgent").is_empty());
}

#[test]
fn add_returns_position() {
    let mut m = TaskManager::new();
    assert_eq!(m.add_task("a".to_string(), 0, Vec::new()), 0);
    assert_eq!(m.add_task("b".to_string(), 0, Vec::new()), 1);
    assert_eq!(m.add_task("c".to_string(), 9, Vec::new()), 2);
    let listed = m.list_tasks();
    let ids: Vec<usize> = listed.iter().map(|t| t.id).collect();
    assert_eq!(ids, vec![2, 0, 1]);
}

#[test]
fn peek_does_not_change_store() {
    let m = sample();
    let first = m.peek_next().unwrap();
    let second = m.peek_next().unwrap();
    assert_eq!(first.description, "Write report");
    assert_eq!(first.id, 0);
    assert_eq!(second.description, first.description);
    assert_eq!(m.list_tasks().len(), 3);
}

#[test]
fn peek_has_highest_priority() {
    let mut m = TaskManager::new();
    m.add_task("low".to_string(), 2, tags(&["x"]));
    m.add_task("high".to_string(), 40, Vec::new());
    m.add_task("mid".to_string(), 7, Vec::new());
    let head = m.peek_next().unwrap();
    assert_eq!(head.description, "high");
    for t in m.list_tasks() {
        assert!(t.priority <= head.priority);
    }
}

#[test]
fn peek_then_complete_agree() {
    let mut m = sample();
    while let Some(peeked) = m.peek_next() {
        let done = m.complete_next().unwrap();
        assert_eq!(peeked.description, done.description);
        assert_eq!(peeked.priority, done.priority);
        assert_eq!(peeked.tags, done.tags);
        assert_eq!(peeked.id, done.id);
    }
    assert!(m.complete_next().is_none());
}

#[test]
fn completion_order() {
    let mut m = sample();
    let mut order = Vec::new();
    while let Some(t) = m.complete_next() {
        order.push(t.description);
    }
    assert_eq!(order, vec!["Write report", "Fix bug", "Buy milk"]);
}

#[test]
fn empty_store_queries() {
    let mut m = TaskManager::new();
    assert!(m.peek_next().is_none());
    assert!(m.complete_next().is_none());
    assert!(m.list_tasks().is_empty());
    assert!(m.tasks_by_tag("nonexistent").is_empty());
}

#[test]
fn absent_tag_is_empty() {
    let m = sample();
    assert!(m.tasks_by_tag("nonexistent").is_empty());
    assert!(m.tasks_by_tag("Work").is_empty());
    assert!(m.tasks_by_tag(" work").is_empty());
    assert!(m.tasks_by_tag("").is_empty());
}

#[test]
fn ids_contiguous_after_removals() {
    let mut m = TaskManager::new();
    for p in [3u32, 8, 1, 8, 5, 0] {
        m.add_task(format!("t{}", p), p, tags(&["all"]));
    }
    for expected_len in (0..6usize).rev() {
        m.complete_next().unwrap();
        let mut ids: Vec<usize> = m.list_tasks().iter().map(|t| t.id).collect();
        ids.sort();
        assert_eq!(ids, (0..expected_len).collect::<Vec<usize>>());
        let indexed: Vec<usize> = m.tasks_by_tag("all").iter().map(|t| t.id).collect();
        assert_eq!(indexed, (0..expected_len).collect::<Vec<usize>>());
    }
}

#[test]
fn tag_index_follows_tasks() {
    let mut m = TaskManager::new();
    m.add_task("a".to_string(), 1, tags(&["x", "y"]));
    m.add_task("b".to_string(), 9, tags(&["y"]));
    m.add_task("c".to_string(), 4, tags(&["x"]));
    let done = m.complete_next().unwrap();
    assert_eq!(done.description, "b");
    assert!(m.tasks_by_tag("y").iter().map(|t| t.description.clone()).eq(vec!["a".to_string()]));
    let x: Vec<(usize, String)> = m.tasks_by_tag("x").iter().map(|t| (t.id, t.description.clone())).collect();
    assert_eq!(x, vec![(0, "a".to_string()), (1, "c".to_string())]);
    for t in m.list_tasks() {
        for tag in &t.tags {
            assert!(m.tasks_by_tag(tag).iter().any(|u| u.id == t.id));
        }
    }
}

#[test]
fn repeated_tag_listed_per_occurrence() {
    let mut m = TaskManager::new();
    m.add_task("dup".to_string(), 3, tags(&["x", "x"]));
    m.add_task("one".to_string(), 2, tags(&["x"]));
    let ids: Vec<usize> = m.tasks_by_tag("x").iter().map(|t| t.id).collect();
    assert_eq!(ids, vec![0, 0, 1]);
    m.complete_next().unwrap();
    let ids: Vec<usize> = m.tasks_by_tag("x").iter().map(|t| t.id).collect();
    assert_eq!(ids, vec![0]);
}

#[test]
fn largest_priority() {
    let mut m = TaskManager::new();
    m.add_task("max".to_string(), u32::MAX, Vec::new());
    m.add_task("zero".to_string(), 0, Vec::new());
    assert_eq!(m.peek_next().unwrap().priority, u32::MAX);
    let listed = m.list_tasks();
    assert_eq!(descriptions(&listed), vec!["max", "zero"]);
}

#[test]
fn clone_keeps_fields() {
    let m = sample();
    let t = m.list_tasks()[0].clone();
    assert_eq!(t.id, 0);
    assert_eq!(t.description, "Write report");
    assert_eq!(t.priority, 5);
    assert_eq!(t.tags, tags(&["work", "urgent"]));
}
