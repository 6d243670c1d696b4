use taskbook::argid::{
    find_folders_by_argid, find_tasks_by_argid, folder_matches, task_matches, FindError, FindType,
};
use taskbook::args::ArgTaskID;
use taskbook::task::{Folder, Task};
use taskbook::taskfile::{TaskFile, FILE_VER};

fn sample() -> TaskFile {
    let mut tf = TaskFile::new();
    tf.add_task(Task::new("finish this README".to_string(), None));
    tf.add_task(Task::new("Push this commit".to_string(), None));
    tf.add_task(Task::new("Fix borken code".to_string(), None));
    tf.add_folder(Folder::new("github".to_string(), "Things I need to do for GithHub".to_string()));
    tf.add_folder(Folder::new("All Tasks".to_string(), "Every single task".to_string()));
    tf
}

fn sel(names: &[&str], ids: &[usize], all: bool) -> ArgTaskID {
    ArgTaskID { name: names.iter().map(|s| s.to_string()).collect(), id: ids.to_vec(), all }
}

fn name_of(e: &FindError) -> Option<String> {
    match &e.find_type {
        FindType::Name(n) => Some(n.clone()),
        FindType::Id(_) => None,
    }
}

fn id_of(e: &FindError) -> Option<usize> {
    match &e.find_type {
        FindType::Name(_) => None,
        FindType::Id(i) => Some(*i),
    }
}

#[test]
fn new_task_file_is_empty() {
    let tf = TaskFile::new();
    assert_eq!(tf.version, FILE_VER);
    assert_eq!(FILE_VER, 1);
    assert!(tf.tasks.is_empty());
    assert!(tf.folders.is_empty());
}

#[test]
fn select_all_tasks() {
    let tf = sample();
    let r = find_tasks_by_argid(&tf, &sel(&[], &[], true)).ok().unwrap();
    assert_eq!(r, vec![0, 1, 2]);
}

#[test]
fn select_all_of_nothing() {
    let tf = TaskFile::new();
    let r = find_tasks_by_argid(&tf, &sel(&[], &[], true)).ok().unwrap();
    assert!(r.is_empty());
}

#[test]
fn select_tasks_by_name_part_then_ids() {
    let tf = sample();
    let r = find_tasks_by_argid(&tf, &sel(&["commit", "README"], &[2, 0], false)).ok().unwrap();
    assert_eq!(r, vec![1, 0, 2, 0]);
}

#[test]
fn select_task_by_ambiguous_name_fails() {
    let tf = sample();
    // "this" occurs in two task names
    let e = find_tasks_by_argid(&tf, &sel(&["this"], &[], false)).err().unwrap();
    assert_eq!(name_of(&e), Some("this".to_string()));
    assert_eq!(e.message(), "Coldn't find name: \"this\"");
}

#[test]
fn select_task_by_unknown_name_fails() {
    let tf = sample();
    let e = find_tasks_by_argid(&tf, &sel(&["commit", "nothing"], &[7], false)).err().unwrap();
    assert_eq!(name_of(&e), Some("nothing".to_string()));
}

#[test]
fn select_task_by_out_of_range_id_fails() {
    let tf = sample();
    let e = find_tasks_by_argid(&tf, &sel(&["commit"], &[1, 3, 9], false)).err().unwrap();
    assert_eq!(id_of(&e), Some(3));
    assert_eq!(e.message(), "Coldn't find id: 3");
}

#[test]
fn error_message_for_large_id() {
    let e = FindError::from(FindType::Id(1203));
    assert_eq!(e.message(), "Coldn't find id: 1203");
    let e = FindError::from(FindType::Id(0));
    assert_eq!(e.message(), "Coldn't find id: 0");
}

#[test]
fn empty_name_part_matches_everything() {
    let tf = sample();
    assert_eq!(task_matches(&tf, ""), vec![0, 1, 2]);
    let e = find_tasks_by_argid(&tf, &sel(&[""], &[], false)).err().unwrap();
    assert_eq!(name_of(&e), Some("".to_string()));
}

#[test]
fn name_parts_are_case_sensitive() {
    let tf = sample();
    assert_eq!(task_matches(&tf, "push"), Vec::<usize>::new());
    assert_eq!(task_matches(&tf, "Push"), vec![1]);
    assert_eq!(task_matches(&tf, "code"), vec![2]);
}

#[test]
fn name_matches_with_non_ascii_text() {
    let mut tf = TaskFile::new();
    tf.add_task(Task::new("café au lait".to_string(), None));
    tf.add_task(Task::new("thé".to_string(), None));
    assert_eq!(task_matches(&tf, "é"), vec![0, 1]);
    assert_eq!(task_matches(&tf, "é a"), vec![0]);
    let r = find_tasks_by_argid(&tf, &sel(&["thé"], &[], false)).ok().unwrap();
    assert_eq!(r, vec![1]);
}

#[test]
fn select_folders_skips_out_of_range_ids() {
    let tf = sample();
    let r = find_folders_by_argid(&tf, &sel(&["github"], &[5, 1, 2, 0], false)).ok().unwrap();
    assert_eq!(r, vec![0, 1, 0]);
}

#[test]
fn select_all_folders() {
    let tf = sample();
    let r = find_folders_by_argid(&tf, &sel(&[], &[], true)).ok().unwrap();
    assert_eq!(r, vec![0, 1]);
}

#[test]
fn select_folder_by_unknown_name_fails() {
    let tf = sample();
    let e = find_folders_by_argid(&tf, &sel(&["gitlab"], &[0], false)).err().unwrap();
    assert_eq!(name_of(&e), Some("gitlab".to_string()));
    assert_eq!(folder_matches(&tf, "gitlab"), Vec::<usize>::new());
    assert_eq!(folder_matches(&tf, "t"), vec![0]);
    assert_eq!(folder_matches(&tf, "a"), vec![1]);
    assert_eq!(folder_matches(&tf, ""), vec![0, 1]);
}
