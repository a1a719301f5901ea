use chat_tasks::{fmt_status, Status, TaskRepo};
use std::collections::HashSet;

#[test]
fn test_new_initial_state() {
    // arrange & act
    let repo = TaskRepo::new();
    // assert
    assert_eq!(repo.next_id, 1);
    assert!(repo.tasks.is_empty());
}

#[test]
fn test_add_task_creates_entry() {
    // arrange
    let mut repo = TaskRepo::new();
    // act
    repo.add_task(
        "Buy milk".into(),
        "From IGA".into(),
        vec!["groceries".into()],
    );
    // assert
    assert_eq!(repo.tasks.len(), 1);
    let task = repo.tasks.get(&1).expect("task should exist");
    assert_eq!(task.name, "Buy milk");
    assert_eq!(task.description, "From IGA");
    assert_eq!(task.tags, HashSet::from(["groceries".to_string()]));
    assert_eq!(task.status, Status::Upcoming);
}

#[test]
fn test_list_tasks_return_sorted_by_id() {
    // arrange
    let mut repo = TaskRepo::new();
    repo.add_task("A".into(), "1".into(), vec![]);
    repo.add_task("B".into(), "2".into(), vec![]);
    repo.add_task("C".into(), "3".into(), vec![]);
    // act
    let list = repo.list_tasks();
    // assert
    assert_eq!(list.len(), 3);
    assert_eq!(list[0].id, 1);
    assert_eq!(list[1].id, 2);
    assert_eq!(list[2].id, 3);
}

#[test]
fn test_update_task_all_fields() {
    // arrange
    let mut repo = TaskRepo::new();
    repo.add_task("Old".into(), "desc".into(), vec!["old".into()]);
    // act
    let res = repo.update_task(
        1,
        Some("New".into()),
        Some("changed".into()),
        Some(vec!["new".into()]),
        Some(Status::Complete),
    );
    // assert
    assert!(res.is_ok());
    let t = repo.tasks.get(&1).unwrap();
    assert_eq!(t.name, "New");
    assert_eq!(t.description, "changed");
    assert_eq!(t.tags, HashSet::from(["new".to_string()]));
    assert_eq!(t.status, Status::Complete);
}

#[test]
fn test_update_task_partial() {
    // arrange
    let mut repo = TaskRepo::new();
    repo.add_task("Task".into(), "desc".into(), vec![]);
    // act
    let res = repo.update_task(1, Some("Renamed".into()), None, None, None);
    // assert
    let t = repo.tasks.get(&1).unwrap();
    assert!(res.is_ok());
    assert_eq!(t.name, "Renamed");
    assert_eq!(t.description, "desc");
}

#[test]
fn test_complete_task_success() {
    // arrange
    let mut repo = TaskRepo::new();
    repo.add_task("Todo".into(), "do it".into(), vec![]);
    // act
    let res = repo.complete_task(1);
    // assert
    assert!(res.is_ok());
    let t = repo.tasks.get(&1).unwrap();
    assert_eq!(t.status, Status::Complete);
}

#[test]
fn complete_task_not_found() {
    // arrange
    let mut repo = TaskRepo::new();
    // act
    let err = repo.complete_task(1);
    // assert
    assert_eq!(err.unwrap_err().kind(), std::io::ErrorKind::NotFound);
}

#[test]
fn test_remove_task_success() {
    // arrange
    let mut repo = TaskRepo::new();
    repo.add_task("Keep".into(), "".into(), vec![]);
    assert_eq!(repo.tasks.len(), 1);
    // act
    let res = repo.remove_task(1);
    // assert
    assert!(res.is_ok());
    assert!(repo.tasks.is_empty());
}

#[test]
fn add_task_collapses_duplicate_tags() {
    let mut repo = TaskRepo::new();
    repo.add_task("T".into(), "".into(), vec!["a".into(), "b".into(), "a".into()]);
    let t = repo.tasks.get(&1).unwrap();
    assert_eq!(t.tags, HashSet::from(["a".to_string(), "b".to_string()]));
    assert_eq!(repo.next_id, 2);
}

#[test]
fn update_task_not_found_leaves_repo() {
    let mut repo = TaskRepo::new();
    repo.add_task("A".into(), "".into(), vec![]);
    let err = repo.update_task(7, Some("X".into()), None, None, None);
    assert_eq!(err.unwrap_err().kind(), std::io::ErrorKind::NotFound);
    assert_eq!(repo.tasks.get(&1).unwrap().name, "A");
}

#[test]
fn remove_task_not_found() {
    let mut repo = TaskRepo::new();
    let err = repo.remove_task(3);
    assert_eq!(err.unwrap_err().kind(), std::io::ErrorKind::NotFound);
}

#[test]
fn list_tasks_skips_removed_ids() {
    let mut repo = TaskRepo::new();
    repo.add_task("A".into(), "".into(), vec![]);
    repo.add_task("B".into(), "".into(), vec![]);
    repo.add_task("C".into(), "".into(), vec![]);
    repo.remove_task(2).unwrap();
    let list = repo.list_tasks();
    let ids: Vec<u32> = list.iter().map(|t| t.id).collect();
    assert_eq!(ids, vec![1, 3]);
    assert_eq!(list[1].name, "C");
}

#[test]
fn update_task_keeps_tags_when_absent() {
    let mut repo = TaskRepo::new();
    repo.add_task("A".into(), "d".into(), vec!["x".into()]);
    repo.update_task(1, None, None, None, Some(Status::StandBy)).unwrap();
    let t = repo.tasks.get(&1).unwrap();
    assert_eq!(t.tags, HashSet::from(["x".to_string()]));
    assert_eq!(t.status, Status::StandBy);
}

#[test]
fn fmt_status_labels() {
    assert_eq!(fmt_status(&Status::Upcoming), "Upcoming");
    assert_eq!(fmt_status(&Status::InProgress), "InProgress");
    assert_eq!(fmt_status(&Status::Complete), "Complete");
    assert_eq!(fmt_status(&Status::StandBy), "StandBy");
}

fn task(id: u32, name: &str, tags: &[&str], status: Status) -> chat_tasks::Task {
    chat_tasks::Task {
        id,
        name: name.to_string(),
        description: String::new(),
        tags: tags.iter().map(|t| t.to_string()).collect(),
        status,
    }
}

#[test]
fn from_parts_repairs_next_id() {
    let mut tasks = std::collections::HashMap::new();
    tasks.insert(4, task(4, "d", &[], Status::Upcoming));
    tasks.insert(2, task(2, "b", &[], Status::Upcoming));
    let repo = TaskRepo::from_parts(tasks, 3).unwrap();
    assert_eq!(repo.next_id, 5);
    assert_eq!(repo.tasks.len(), 2);
}

#[test]
fn from_parts_keeps_larger_next_id() {
    let mut tasks = std::collections::HashMap::new();
    tasks.insert(1, task(1, "a", &[], Status::Upcoming));
    let repo = TaskRepo::from_parts(tasks, 9).unwrap();
    assert_eq!(repo.next_id, 9);
}

#[test]
fn from_parts_empty_restarts_at_one() {
    let repo = TaskRepo::from_parts(std::collections::HashMap::new(), 17).unwrap();
    assert_eq!(repo.next_id, 1);
}

#[test]
fn from_parts_loads_tasks_under_other_keys() {
    let mut tasks = std::collections::HashMap::new();
    tasks.insert(1, task(7, "a", &[], Status::Upcoming));
    tasks.insert(0, task(0, "z", &[], Status::Upcoming));
    tasks.insert(5, task(2, "b", &[], Status::Upcoming));
    let mut repo = TaskRepo::from_parts(tasks, 3).unwrap();
    assert_eq!(repo.next_id, 6);
    assert_eq!(repo.tasks.len(), 3);
    let ids: Vec<u32> = repo.list_tasks().iter().map(|t| t.id).collect();
    assert_eq!(ids, vec![0, 2, 7]);
    repo.add_task("new".into(), "".into(), vec![]);
    assert_eq!(repo.tasks.len(), 4);
    assert_eq!(repo.tasks.get(&6).unwrap().name, "new");
}

#[test]
fn from_parts_refuses_key_at_limit() {
    let mut tasks = std::collections::HashMap::new();
    tasks.insert(u32::MAX, task(u32::MAX, "m", &[], Status::Upcoming));
    assert!(TaskRepo::from_parts(tasks, 3).is_none());
}

#[test]
fn select_tasks_by_status_and_tag() {
    let a = task(1, "a", &["home", "x"], Status::Complete);
    let b = task(2, "b", &["home"], Status::Upcoming);
    let c = task(3, "c", &["work"], Status::Complete);
    let all = vec![&a, &b, &c];
    let ids = |v: Vec<&chat_tasks::Task>| v.iter().map(|t| t.id).collect::<Vec<u32>>();
    assert_eq!(ids(chat_tasks::select_tasks(&all, None, None)), vec![1, 2, 3]);
    assert_eq!(ids(chat_tasks::select_tasks(&all, Some(Status::Complete), None)), vec![1, 3]);
    let home = "home".to_string();
    assert_eq!(ids(chat_tasks::select_tasks(&all, None, Some(&home))), vec![1, 2]);
    assert_eq!(ids(chat_tasks::select_tasks(&all, Some(Status::Complete), Some(&home))), vec![1]);
}

#[test]
fn tags_column_sorts_and_joins() {
    let t = task(1, "a", &["zeta", "alpha", "mid"], Status::Upcoming);
    assert_eq!(chat_tasks::tags_column(&t), "alpha,mid,zeta");
    let none = task(2, "b", &[], Status::Upcoming);
    assert_eq!(chat_tasks::tags_column(&none), "");
}

#[test]
fn join_with_commas_places_separators_between() {
    let parts = vec!["a".to_string(), "".to_string(), "c".to_string()];
    assert_eq!(chat_tasks::join_with_commas(&parts), "a,,c");
    assert_eq!(chat_tasks::join_with_commas(&vec!["x".to_string()]), "x");
    assert_eq!(chat_tasks::join_with_commas(&Vec::new()), "");
}
