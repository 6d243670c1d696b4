//! The commands of the to-do list, each from a selection on the command line
//! to the change it makes in the task file.
//!
//! Each command first resolves its selection; when that fails, the task file
//! is left as it was and the error comes back. Some commands can only be
//! carried out on selections that fit the task file; each such condition has
//! a `check_` function that tells beforehand whether a selection fits.
use vstd::prelude::*;
use crate::args::ArgTaskID;
use crate::argid::{
    FindError, Missing, all_indices, select_tasks, select_folders, find_tasks_by_argid, find_folders_by_argid,
    lemma_selected_tasks_exist, lemma_selected_folders_exist,
};
use crate::task::{Task, Folder};
use crate::taskfile::{
    TaskFile, tasks_renamed, tasks_completed, folders_described, tasks_removed, folders_removed,
    added_to_folder, removed_from_folder,
};
use crate::removal::{
    removal_positions, removals_fit, removed_items, removals_fit_check, strictly_increasing,
    lemma_increasing_removals,
};

verus! {

/// Renames the selected tasks to `new`. Returns the selected indices.
pub fn rename_selected(tf: &mut TaskFile, argid: &ArgTaskID, new: &String) -> (r: Result<Vec<usize>, FindError>)
    ensures
        match r {
            Ok(ids) => select_tasks(old(tf).task_names(), *argid) == Ok::<Seq<usize>, Missing>(ids@)
                && tasks_renamed(*old(tf), *final(tf), ids@, new@),
            Err(e) => select_tasks(old(tf).task_names(), *argid) == Err::<Seq<usize>, Missing>(e@)
                && *final(tf) == *old(tf),
        },
        old(tf).wf() ==> final(tf).wf(),
{
    let ids = match find_tasks_by_argid(tf, argid) {
        Ok(v) => v,
        Err(e) => {
            return Err(e);
        },
    };
    let n = tf.tasks.len();
    proof {
        assert(tf.task_names().len() == n);
        lemma_selected_tasks_exist(tf.task_names(), *argid);
        assert(select_tasks(tf.task_names(), *argid) == Ok::<Seq<usize>, Missing>(ids@));
        assert(forall|k: int| 0 <= k < ids@.len() ==> #[trigger] ids@[k] < tf.tasks@.len());
    }
    tf.rename_tasks(&ids, new);
    Ok(ids)
}

/// Marks the selected tasks done. Returns the selected indices.
pub fn complete_selected(tf: &mut TaskFile, argid: &ArgTaskID) -> (r: Result<Vec<usize>, FindError>)
    ensures
        match r {
            Ok(ids) => select_tasks(old(tf).task_names(), *argid) == Ok::<Seq<usize>, Missing>(ids@)
                && tasks_completed(*old(tf), *final(tf), ids@),
            Err(e) => select_tasks(old(tf).task_names(), *argid) == Err::<Seq<usize>, Missing>(e@)
                && *final(tf) == *old(tf),
        },
        old(tf).wf() ==> final(tf).wf(),
{
    let ids = match find_tasks_by_argid(tf, argid) {
        Ok(v) => v,
        Err(e) => {
            return Err(e);
        },
    };
    let n = tf.tasks.len();
    proof {
        assert(tf.task_names().len() == n);
        lemma_selected_tasks_exist(tf.task_names(), *argid);
        assert(select_tasks(tf.task_names(), *argid) == Ok::<Seq<usize>, Missing>(ids@));
        assert(forall|k: int| 0 <= k < ids@.len() ==> #[trigger] ids@[k] < tf.tasks@.len());
    }
    tf.complete_tasks(&ids);
    Ok(ids)
}

/// Gives the selected folders the description `desc`. Returns the selected
/// indices.
pub fn describe_selected(tf: &mut TaskFile, argid: &ArgTaskID, desc: &String) -> (r: Result<Vec<usize>, FindError>)
    ensures
        match r {
            Ok(ids) => select_folders(old(tf).folder_names(), *argid) == Ok::<Seq<usize>, Missing>(ids@)
                && folders_described(*old(tf), *final(tf), ids@, desc@),
            Err(e) => select_folders(old(tf).folder_names(), *argid) == Err::<Seq<usize>, Missing>(e@)
                && *final(tf) == *old(tf),
        },
        old(tf).wf() ==> final(tf).wf(),
{
    let ids = match find_folders_by_argid(tf, argid) {
        Ok(v) => v,
        Err(e) => {
            return Err(e);
        },
    };
    let n = tf.folders.len();
    proof {
        assert(tf.folder_names().len() == n);
        lemma_selected_folders_exist(tf.folder_names(), *argid);
        assert(select_folders(tf.folder_names(), *argid) == Ok::<Seq<usize>, Missing>(ids@));
        assert(forall|k: int| 0 <= k < ids@.len() ==> #[trigger] ids@[k] < tf.folders@.len());
    }
    tf.set_folder_descs(&ids, desc);
    Ok(ids)
}

/// The selected tasks can be removed in turn: every removal lands inside
/// the task list.
pub open spec fn task_removal_fits(tf: TaskFile, argid: ArgTaskID) -> bool {
    select_tasks(tf.task_names(), argid) matches Ok(ids) ==> removals_fit(ids, tf.tasks@.len())
}

/// Whether the selected tasks can be removed in turn.
pub fn check_task_removal(tf: &TaskFile, argid: &ArgTaskID) -> (r: bool)
    ensures
        r == task_removal_fits(*tf, *argid),
{
    match find_tasks_by_argid(tf, argid) {
        Ok(ids) => removals_fit_check(&ids, tf.tasks.len()),
        Err(_) => true,
    }
}

/// Removes the selected tasks in turn, the folders following. Returns the
/// selected indices and the removed tasks.
pub fn remove_selected_tasks(tf: &mut TaskFile, argid: &ArgTaskID) -> (r: Result<(Vec<usize>, Vec<Task>), FindError>)
    requires
        task_removal_fits(*old(tf), *argid),
    ensures
        match r {
            Ok((ids, removed)) => select_tasks(old(tf).task_names(), *argid) == Ok::<Seq<usize>, Missing>(ids@)
                && tasks_removed(*old(tf), *final(tf), removal_positions(ids@))
                && removed@ == removed_items(old(tf).tasks@, removal_positions(ids@)),
            Err(e) => select_tasks(old(tf).task_names(), *argid) == Err::<Seq<usize>, Missing>(e@)
                && *final(tf) == *old(tf),
        },
        old(tf).wf() ==> final(tf).wf(),
{
    let ids = match find_tasks_by_argid(tf, argid) {
        Ok(v) => v,
        Err(e) => {
            return Err(e);
        },
    };
    let removed = tf.remove_tasks(&ids);
    Ok((ids, removed))
}

/// The selected folders can be removed in turn: every removal lands inside
/// the folder list.
pub open spec fn folder_removal_fits(tf: TaskFile, argid: ArgTaskID) -> bool {
    select_folders(tf.folder_names(), argid) matches Ok(ids) ==> removals_fit(ids, tf.folders@.len())
}

/// Whether the selected folders can be removed in turn.
pub fn check_folder_removal(tf: &TaskFile, argid: &ArgTaskID) -> (r: bool)
    ensures
        r == folder_removal_fits(*tf, *argid),
{
    match find_folders_by_argid(tf, argid) {
        Ok(ids) => removals_fit_check(&ids, tf.folders.len()),
        Err(_) => true,
    }
}

/// Removes the selected folders in turn. Returns the selected indices and
/// the removed folders.
pub fn remove_selected_folders(tf: &mut TaskFile, argid: &ArgTaskID) -> (r: Result<(Vec<usize>, Vec<Folder>), FindError>)
    requires
        folder_removal_fits(*old(tf), *argid),
    ensures
        match r {
            Ok((ids, removed)) => select_folders(old(tf).folder_names(), *argid) == Ok::<Seq<usize>, Missing>(ids@)
                && folders_removed(*old(tf), *final(tf), removal_positions(ids@))
                && removed@ == removed_items(old(tf).folders@, removal_positions(ids@)),
            Err(e) => select_folders(old(tf).folder_names(), *argid) == Err::<Seq<usize>, Missing>(e@)
                && *final(tf) == *old(tf),
        },
        old(tf).wf() ==> final(tf).wf(),
{
    let ids = match find_folders_by_argid(tf, argid) {
        Ok(v) => v,
        Err(e) => {
            return Err(e);
        },
    };
    let removed = tf.remove_folders(&ids);
    Ok((ids, removed))
}

/// The selected tasks can be added to the folder at `folder`: it exists,
/// unless no task is selected.
pub open spec fn folder_addition_fits(tf: TaskFile, folder: usize, argid: ArgTaskID) -> bool {
    select_tasks(tf.task_names(), argid) matches Ok(ids) ==> (ids.len() > 0 ==> folder < tf.folders@.len())
}

/// Whether the selected tasks can be added to the folder at `folder`.
pub fn check_folder_addition(tf: &TaskFile, folder: usize, argid: &ArgTaskID) -> (r: bool)
    ensures
        r == folder_addition_fits(*tf, folder, *argid),
{
    match find_tasks_by_argid(tf, argid) {
        Ok(ids) => ids.len() == 0 || folder < tf.folders.len(),
        Err(_) => true,
    }
}

/// Adds the selected tasks to the folder at `folder` in turn, stopping at
/// the first one it already holds. Returns the selected indices, and
/// `Ok(n)` when all were added or `Err(k)` when the one at position `k` was
/// already there.
pub fn add_selected_to_folder(tf: &mut TaskFile, folder: usize, argid: &ArgTaskID) -> (r: Result<
    (Vec<usize>, Result<usize, usize>),
    FindError,
>)
    requires
        folder_addition_fits(*old(tf), folder, *argid),
    ensures
        match r {
            Ok((ids, added)) => select_tasks(old(tf).task_names(), *argid) == Ok::<Seq<usize>, Missing>(ids@)
                && added_to_folder(*old(tf), *final(tf), folder, ids@, added),
            Err(e) => select_tasks(old(tf).task_names(), *argid) == Err::<Seq<usize>, Missing>(e@)
                && *final(tf) == *old(tf),
        },
        old(tf).wf() ==> final(tf).wf(),
{
    let ids = match find_tasks_by_argid(tf, argid) {
        Ok(v) => v,
        Err(e) => {
            return Err(e);
        },
    };
    let n = tf.tasks.len();
    proof {
        assert(tf.task_names().len() == n);
        lemma_selected_tasks_exist(tf.task_names(), *argid);
        assert(select_tasks(tf.task_names(), *argid) == Ok::<Seq<usize>, Missing>(ids@));
        assert(forall|k: int| 0 <= k < ids@.len() ==> #[trigger] ids@[k] < tf.tasks@.len());
    }
    let added = tf.add_tasks_to_folder(folder, &ids);
    Ok((ids, added))
}

/// The positions selected (by the folder selection rules) can be taken out
/// of the folder at `folder` in turn: the folder exists unless nothing is
/// selected, every position but the last is at least `folder`, and each
/// position lies inside what is left of the folder at that point.
pub open spec fn folder_task_removal_fits(tf: TaskFile, folder: usize, argid: ArgTaskID) -> bool {
    match select_folders(tf.folder_names(), argid) {
        Ok(ids) => {
            &&& ids.len() > 0 ==> folder < tf.folders@.len()
            &&& forall|j: int| 0 <= j < ids.len() - 1 ==> #[trigger] ids[j] >= folder
            &&& forall|k: int|
                0 <= k < ids.len() ==> #[trigger] ids[k] + k < tf.folders@[folder as int].tasks@.len()
        },
        Err(_) => true,
    }
}

/// Whether the selected positions can be taken out of the folder at
/// `folder` in turn.
pub fn check_folder_task_removal(tf: &TaskFile, folder: usize, argid: &ArgTaskID) -> (r: bool)
    ensures
        r == folder_task_removal_fits(*tf, folder, *argid),
{
    match find_folders_by_argid(tf, argid) {
        Ok(ids) => {
            if ids.len() == 0 {
                return true;
            }
            if folder >= tf.folders.len() {
                return false;
            }
            let n = tf.folders[folder].tasks.len();
            let mut k: usize = 0;
            while k < ids.len()
                invariant
                    select_folders(tf.folder_names(), *argid) == Ok::<Seq<usize>, Missing>(ids@),
                    folder < tf.folders@.len(),
                    0 < ids@.len(),
                    k <= ids@.len(),
                    n == tf.folders@[folder as int].tasks@.len(),
                    forall|j: int| 0 <= j < k && j < ids@.len() - 1 ==> #[trigger] ids@[j] >= folder,
                    forall|j: int| 0 <= j < k ==> #[trigger] ids@[j] + j < n,
                decreases ids.len() - k,
            {
                if k + 1 < ids.len() && ids[k] < folder {
                    let ghost sel = select_folders(tf.folder_names(), *argid)->Ok_0;
                    assert(sel[k as int] < folder);
                    return false;
                }
                if k >= n || ids[k] >= n - k {
                    let ghost sel = select_folders(tf.folder_names(), *argid)->Ok_0;
                    assert(!(sel[k as int] + k < n));
                    return false;
                }
                k = k + 1;
            }
            true
        },
        Err(_) => true,
    }
}

/// Takes the selected positions (selected by the folder selection rules)
/// out of the folder at `folder`, in turn. Returns the selected positions
/// and the references taken out.
pub fn remove_selected_from_folder(tf: &mut TaskFile, folder: usize, argid: &ArgTaskID) -> (r: Result<
    (Vec<usize>, Vec<usize>),
    FindError,
>)
    requires
        folder_task_removal_fits(*old(tf), folder, *argid),
    ensures
        match r {
            Ok((ids, removed)) => select_folders(old(tf).folder_names(), *argid) == Ok::<Seq<usize>, Missing>(ids@)
                && removed_from_folder(*old(tf), *final(tf), folder, ids@, removed@),
            Err(e) => select_folders(old(tf).folder_names(), *argid) == Err::<Seq<usize>, Missing>(e@)
                && *final(tf) == *old(tf),
        },
        old(tf).wf() ==> final(tf).wf(),
{
    let ids = match find_folders_by_argid(tf, argid) {
        Ok(v) => v,
        Err(e) => {
            return Err(e);
        },
    };
    proof {
        let sel = select_folders(tf.folder_names(), *argid)->Ok_0;
        assert(sel == ids@);
        assert(forall|j: int| 0 <= j < sel.len() - 1 ==> #[trigger] sel[j] >= folder);
    }
    let removed = tf.remove_from_folder(folder, &ids);
    Ok((ids, removed))
}

/// Removing every task (a selection with `all`) always fits, leaves no task,
/// and in a well-formed result leaves every folder empty.
pub proof fn lemma_remove_all_tasks(tf: TaskFile, argid: ArgTaskID, after: TaskFile)
    requires
        argid.all,
        tf.tasks@.len() <= usize::MAX,
    ensures
        task_removal_fits(tf, argid),
        select_tasks(tf.task_names(), argid) == Ok::<Seq<usize>, Missing>(all_indices(tf.tasks@.len())),
        tasks_removed(tf, after, removal_positions(all_indices(tf.tasks@.len()))) ==> after.tasks@.len() == 0,
        tasks_removed(tf, after, removal_positions(all_indices(tf.tasks@.len()))) && after.wf() ==> forall|f: int|
            0 <= f < after.folders@.len() ==> (#[trigger] after.folders@[f]).tasks@.len() == 0,
{
    let ids = all_indices(tf.tasks@.len());
    assert(tf.task_names().len() == tf.tasks@.len());
    assert(strictly_increasing(ids));
    lemma_increasing_removals(tf.tasks@, ids);
    if tasks_removed(tf, after, removal_positions(ids)) && after.wf() {
        assert forall|f: int| 0 <= f < after.folders@.len() implies (#[trigger] after.folders@[f]).tasks@.len() == 0 by {
            let refs = after.folders@[f].tasks@;
            if refs.len() > 0 {
                assert(refs[0] < after.tasks@.len());
            }
        }
    }
}

} // verus!
