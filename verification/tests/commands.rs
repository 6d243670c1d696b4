use taskbook::args::ArgTaskID;
use taskbook::commands::{
    add_selected_to_folder, check_folder_addition, check_folder_removal, check_folder_task_removal,
    check_task_removal, complete_selected, describe_selected, remove_selected_folders,
    remove_selected_from_folder, remove_selected_tasks, rename_selected,
};
use taskbook::removal::removals_fit_check;
use taskbook::refs::{adjust_refs, sort_ascending};
use taskbook::task::{Folder, Task};
use taskbook::taskfile::TaskFile;

fn tasks(names: &[&str]) -> TaskFile {
    let mut tf = TaskFile::new();
    for n in names {
        tf.add_task(Task::new(n.to_string(), None));
    }
    tf
}

fn sel(names: &[&str], ids: &[usize], all: bool) -> ArgTaskID {
    ArgTaskID { name: names.iter().map(|s| s.to_string()).collect(), id: ids.to_vec(), all }
}

fn names(tf: &TaskFile) -> Vec<String> {
    tf.tasks.iter().map(|t| t.name.clone()).collect()
}

#[test]
fn task_display() {
    let mut t = Task::new("buy milk".to_string(), None);
    assert_eq!(t.display_string(), "[ ]buy milk");
    t.done = true;
    assert_eq!(t.display_string(), "[X]buy milk");
}

#[test]
fn folder_display() {
    let f = Folder::new("github".to_string(), "Things to do".to_string());
    assert_eq!(f.display_string(), "github: Things to do");
    assert!(f.tasks.is_empty());
}

#[test]
fn new_task_keeps_its_path() {
    let t = Task::new("a".to_string(), Some("/home/me".to_string()));
    assert!(!t.done);
    assert_eq!(t.path, Some("/home/me".to_string()));
}

#[test]
fn rename_selected_tasks() {
    let mut tf = tasks(&["a", "b", "c"]);
    let ids = rename_selected(&mut tf, &sel(&["b"], &[2], false), &"z".to_string()).ok().unwrap();
    assert_eq!(ids, vec![1, 2]);
    assert_eq!(names(&tf), vec!["a", "z", "z"]);
}

#[test]
fn rename_with_bad_selection_changes_nothing() {
    let mut tf = tasks(&["a", "b"]);
    assert!(rename_selected(&mut tf, &sel(&[], &[0, 5], false), &"z".to_string()).is_err());
    assert_eq!(names(&tf), vec!["a", "b"]);
}

#[test]
fn complete_selected_tasks() {
    let mut tf = tasks(&["a", "b", "c"]);
    complete_selected(&mut tf, &sel(&[], &[0, 2], false)).ok().unwrap();
    let done: Vec<bool> = tf.tasks.iter().map(|t| t.done).collect();
    assert_eq!(done, vec![true, false, true]);
    assert_eq!(tf.tasks[2].display_string(), "[X]c");
}

#[test]
fn remove_tasks_follows_folders() {
    let mut tf = tasks(&["t0", "t1", "t2", "t3"]);
    tf.add_folder(Folder { name: "f".to_string(), desc: String::new(), tasks: vec![3, 1, 0] });
    let sel1 = sel(&[], &[1], false);
    assert!(check_task_removal(&tf, &sel1));
    let (ids, removed) = remove_selected_tasks(&mut tf, &sel1).ok().unwrap();
    assert_eq!(ids, vec![1]);
    assert_eq!(removed.len(), 1);
    assert_eq!(removed[0].name, "t1");
    assert_eq!(names(&tf), vec!["t0", "t2", "t3"]);
    // sorted, the reference to the removed task dropped, those above lowered
    assert_eq!(tf.folders[0].tasks, vec![0, 2]);
    assert_eq!(tf.tasks[tf.folders[0].tasks[1]].name, "t3");
}

#[test]
fn remove_tasks_in_increasing_order() {
    let mut tf = tasks(&["t0", "t1", "t2", "t3", "t4"]);
    tf.add_folder(Folder { name: "f".to_string(), desc: String::new(), tasks: vec![4, 2, 0, 3] });
    let (_, removed) = remove_selected_tasks(&mut tf, &sel(&[], &[1, 3], false)).ok().unwrap();
    let gone: Vec<String> = removed.iter().map(|t| t.name.clone()).collect();
    assert_eq!(gone, vec!["t1", "t3"]);
    assert_eq!(names(&tf), vec!["t0", "t2", "t4"]);
    assert_eq!(tf.folders[0].tasks, vec![0, 1, 2]);
}

#[test]
fn remove_tasks_in_decreasing_order() {
    let mut tf = tasks(&["t0", "t1", "t2", "t3"]);
    let (_, removed) = remove_selected_tasks(&mut tf, &sel(&[], &[3, 1], false)).ok().unwrap();
    let gone: Vec<String> = removed.iter().map(|t| t.name.clone()).collect();
    assert_eq!(gone, vec!["t3", "t1"]);
    assert_eq!(names(&tf), vec!["t0", "t2"]);
}

#[test]
fn remove_all_tasks_empties_everything() {
    let mut tf = tasks(&["a", "b", "c"]);
    tf.add_folder(Folder { name: "f".to_string(), desc: String::new(), tasks: vec![2, 0, 1] });
    let (ids, removed) = remove_selected_tasks(&mut tf, &sel(&[], &[], true)).ok().unwrap();
    assert_eq!(ids, vec![0, 1, 2]);
    assert_eq!(removed.len(), 3);
    assert!(tf.tasks.is_empty());
    assert!(tf.folders[0].tasks.is_empty());
}

#[test]
fn removal_that_would_fall_outside_is_caught() {
    // the same task twice: the second removal lands past the end
    let tf = tasks(&["a"]);
    assert!(!check_task_removal(&tf, &sel(&[], &[0, 0], false)));
    // this order drives the lowered index below zero
    assert!(!removals_fit_check(&vec![0, 1, 3, 2], 4));
    assert!(removals_fit_check(&vec![3, 1, 2, 0], 4));
    assert!(removals_fit_check(&vec![], 0));
}

#[test]
fn sorting_and_adjusting_references() {
    assert_eq!(sort_ascending(&vec![5, 1, 4, 1, 0]), vec![0, 1, 1, 4, 5]);
    assert_eq!(adjust_refs(&vec![5, 1, 4, 2], 2), vec![1, 3, 4]);
    assert_eq!(adjust_refs(&vec![3, 3, 0], 3), vec![0, 3]);
    assert_eq!(adjust_refs(&vec![], 0), Vec::<usize>::new());
}

#[test]
fn remove_folders_by_selection() {
    let mut tf = tasks(&[]);
    for n in ["f0", "f1", "f2"] {
        tf.add_folder(Folder::new(n.to_string(), String::new()));
    }
    let s = sel(&["f2"], &[0], false);
    assert!(check_folder_removal(&tf, &s));
    let (ids, removed) = remove_selected_folders(&mut tf, &s).ok().unwrap();
    assert_eq!(ids, vec![2, 0]);
    let gone: Vec<String> = removed.iter().map(|f| f.display_string()).collect();
    assert_eq!(gone, vec!["f2: ", "f0: "]);
    assert_eq!(tf.folders.len(), 1);
    assert_eq!(tf.folders[0].name, "f1");
}

#[test]
fn describe_selected_folders() {
    let mut tf = tasks(&[]);
    tf.add_folder(Folder::new("a".to_string(), "old".to_string()));
    tf.add_folder(Folder::new("b".to_string(), "old".to_string()));
    let ids = describe_selected(&mut tf, &sel(&["b"], &[], false), &"new".to_string()).ok().unwrap();
    assert_eq!(ids, vec![1]);
    assert_eq!(tf.folders[0].desc, "old");
    assert_eq!(tf.folders[1].desc, "new");
}

#[test]
fn add_tasks_to_folder() {
    let mut tf = tasks(&["a", "b", "c"]);
    tf.add_folder(Folder::new("f".to_string(), String::new()));
    let s = sel(&[], &[2, 0], false);
    assert!(check_folder_addition(&tf, 0, &s));
    let (ids, added) = add_selected_to_folder(&mut tf, 0, &s).ok().unwrap();
    assert_eq!(ids, vec![2, 0]);
    assert_eq!(added, Ok(2));
    assert_eq!(tf.folders[0].tasks, vec![2, 0]);
}

#[test]
fn add_task_already_in_folder_stops() {
    let mut tf = tasks(&["a", "b", "c"]);
    tf.add_folder(Folder { name: "f".to_string(), desc: String::new(), tasks: vec![1] });
    let (_, added) = add_selected_to_folder(&mut tf, 0, &sel(&[], &[2, 1, 0], false)).ok().unwrap();
    assert_eq!(added, Err(1));
    assert_eq!(tf.folders[0].tasks, vec![1, 2]);
}

#[test]
fn add_to_missing_folder_is_caught() {
    let tf = tasks(&["a"]);
    assert!(!check_folder_addition(&tf, 3, &sel(&[], &[0], false)));
    let empty = TaskFile::new();
    assert!(check_folder_addition(&empty, 3, &sel(&[], &[], true)));
}

#[test]
fn remove_positions_from_folder() {
    let mut tf = tasks(&["a", "b", "c", "d"]);
    tf.add_folder(Folder { name: "f".to_string(), desc: String::new(), tasks: vec![3, 1, 2] });
    tf.add_folder(Folder { name: "g".to_string(), desc: String::new(), tasks: vec![0] });
    // the positions are picked by the folder rules, so indices past the
    // number of folders are passed over
    let s = sel(&[], &[1, 0, 9], false);
    assert!(check_folder_task_removal(&tf, 0, &s));
    let (ids, removed) = remove_selected_from_folder(&mut tf, 0, &s).ok().unwrap();
    assert_eq!(ids, vec![1, 0]);
    assert_eq!(removed, vec![1, 3]);
    assert_eq!(tf.folders[0].tasks, vec![2]);
    assert_eq!(tf.folders[1].tasks, vec![0]);
}

#[test]
fn remove_positions_below_the_folder_is_caught() {
    let mut tf = tasks(&["a", "b"]);
    tf.add_folder(Folder { name: "f".to_string(), desc: String::new(), tasks: vec![0] });
    tf.add_folder(Folder { name: "g".to_string(), desc: String::new(), tasks: vec![0, 1] });
    // an earlier position below the folder index drives the lowering count below zero
    assert!(!check_folder_task_removal(&tf, 1, &sel(&[], &[0, 0], false)));
    // a position past the end of the folder
    assert!(!check_folder_task_removal(&tf, 0, &sel(&[], &[1], false)));
    assert!(check_folder_task_removal(&tf, 1, &sel(&[], &[1, 0], false)));
}

fn well_formed(tf: &TaskFile) -> bool {
    tf.folders.iter().all(|f| {
        f.tasks.iter().all(|&i| i < tf.tasks.len())
            && f.tasks.iter().enumerate().all(|(a, x)| f.tasks.iter().skip(a + 1).all(|y| x != y))
    })
}

#[test]
fn commands_keep_folders_well_formed() {
    let mut tf = tasks(&["a", "b", "c", "d", "e"]);
    tf.add_folder(Folder::new("f".to_string(), String::new()));
    tf.add_folder(Folder::new("g".to_string(), String::new()));
    assert!(well_formed(&tf));
    add_selected_to_folder(&mut tf, 0, &sel(&[], &[4, 1, 3], false)).ok().unwrap();
    add_selected_to_folder(&mut tf, 1, &sel(&[], &[], true)).ok().unwrap();
    assert!(well_formed(&tf));
    assert_eq!(tf.folders[1].tasks, vec![0, 1, 2, 3, 4]);
    remove_selected_tasks(&mut tf, &sel(&[], &[3], false)).ok().unwrap();
    assert!(well_formed(&tf));
    assert_eq!(tf.folders[0].tasks, vec![1, 3]);
    assert_eq!(tf.tasks[tf.folders[0].tasks[1]].name, "e");
    remove_selected_from_folder(&mut tf, 1, &sel(&[], &[1], false)).ok().unwrap();
    assert!(well_formed(&tf));
    assert_eq!(tf.folders[1].tasks, vec![0, 2, 3]);
    complete_selected(&mut tf, &sel(&["e"], &[], false)).ok().unwrap();
    assert!(tf.tasks[3].done);
    assert!(well_formed(&tf));
}

#[test]
fn readme_walkthrough() {
    let mut tf = TaskFile::new();
    tf.add_task(Task::new("finish this README".to_string(), None));
    tf.add_task(Task::new("Push this commit".to_string(), None));
    tf.add_task(Task::new("Fix borken code".to_string(), None));
    tf.add_folder(Folder::new("github".to_string(), "Things I need to do for GithHub".to_string()));
    let lines: Vec<String> = tf.tasks.iter().enumerate().map(|(i, t)| t.listing_line(i)).collect();
    assert_eq!(lines, vec!["0 finish this README:", "1 Push this commit:", "2 Fix borken code:"]);
    let (_, added) = add_selected_to_folder(&mut tf, 0, &sel(&[], &[0], false)).ok().unwrap();
    assert_eq!(added, Ok(1));
    let (_, added) = add_selected_to_folder(&mut tf, 0, &sel(&["commit"], &[], false)).ok().unwrap();
    assert_eq!(added, Ok(1));
    let shown: Vec<String> = tf.folders[0].tasks.iter().map(|&i| tf.tasks[i].display_string()).collect();
    assert_eq!(shown, vec!["[ ]finish this README", "[ ]Push this commit"]);
    tf.add_folder(Folder::new("All Tasks".to_string(), "Every single task".to_string()));
    let (_, added) = add_selected_to_folder(&mut tf, 1, &sel(&[], &[], true)).ok().unwrap();
    assert_eq!(added, Ok(3));
    assert_eq!(tf.folders[1].tasks, vec![0, 1, 2]);
    assert_eq!(tf.tasks[12 % 10].listing_line(12), "12 Fix borken code:");
}
