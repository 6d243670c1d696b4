use taskbook::listing::{check_refs_exist, folder_listing, task_listing};
use taskbook::task::{Folder, Task};
use taskbook::taskfile::TaskFile;

fn readme_file() -> TaskFile {
    let mut tf = TaskFile::new();
    tf.add_task(Task::new("finish this README".to_string(), None));
    tf.add_task(Task::new("Push this commit".to_string(), None));
    tf.add_task(Task::new("Fix borken code".to_string(), None));
    tf.add_folder(Folder {
        name: "github".to_string(),
        desc: "Things I need to do for GithHub".to_string(),
        tasks: vec![0, 1],
    });
    tf.add_folder(Folder {
        name: "All Tasks".to_string(),
        desc: "Every single task".to_string(),
        tasks: vec![0, 1, 2],
    });
    tf
}

#[test]
fn task_list_lines() {
    let tf = readme_file();
    assert_eq!(
        task_listing(&tf),
        vec!["0 finish this README:", "1 Push this commit:", "2 Fix borken code:"]
    );
    assert!(task_listing(&TaskFile::new()).is_empty());
}

#[test]
fn folder_list_with_tasks() {
    let tf = readme_file();
    assert!(check_refs_exist(&tf));
    assert_eq!(
        folder_listing(&tf, true, true),
        vec![
            "[0] github:",
            "(Things I need to do for GithHub)",
            "\t[0] [ ]finish this README",
            "\t[1] [ ]Push this commit",
            "[1] All Tasks:",
            "(Every single task)",
            "\t[0] [ ]finish this README",
            "\t[1] [ ]Push this commit",
            "\t[2] [ ]Fix borken code",
        ]
    );
}

#[test]
fn folder_list_names_only() {
    let tf = readme_file();
    assert_eq!(folder_listing(&tf, false, false), vec!["[0] github:", "[1] All Tasks:"]);
    assert_eq!(
        folder_listing(&tf, true, false),
        vec!["[0] github:", "(Things I need to do for GithHub)", "[1] All Tasks:", "(Every single task)"]
    );
}

#[test]
fn dangling_reference_is_caught() {
    let mut tf = readme_file();
    tf.folders[0].tasks.push(7);
    assert!(!check_refs_exist(&tf));
}

use taskbook::listing::{folder_lookup_lines, task_lookup_lines};

#[test]
fn task_lookup_explains_no_match() {
    let tf = readme_file();
    assert_eq!(task_lookup_lines(&tf, "readme"), vec!["Error. Zero matches found for \"readme\""]);
}

#[test]
fn task_lookup_explains_several_matches() {
    let tf = readme_file();
    assert_eq!(
        task_lookup_lines(&tf, "i"),
        vec![
            "Error. Found multiple matches for \"i\"",
            "0 [ ]finish this README",
            "1 [ ]Push this commit",
            "2 [ ]Fix borken code",
        ]
    );
    assert!(task_lookup_lines(&tf, "commit").is_empty());
}

#[test]
fn folder_lookup_explains_matches() {
    let mut tf = TaskFile::new();
    tf.add_folder(Folder::new("github".to_string(), "a".to_string()));
    tf.add_folder(Folder::new("gitlab".to_string(), "b".to_string()));
    let (lines, none) = folder_lookup_lines(&tf, "git");
    assert_eq!(lines, vec!["Error. Found multiple matches for \"git\"", "0 github: a", "1 gitlab: b"]);
    assert!(!none);
    let (lines, none) = folder_lookup_lines(&tf, "svn");
    assert_eq!(lines, vec!["Error. Zero matches found for \"svn\""]);
    assert!(none);
    let (lines, none) = folder_lookup_lines(&tf, "hub");
    assert!(lines.is_empty());
    assert!(!none);
}
