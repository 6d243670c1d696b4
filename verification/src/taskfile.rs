//! The task file: every task and every folder, and the commands that change
//! them.
use vstd::prelude::*;
use crate::task::{Task, Folder};
use crate::removal::{removal_positions, removals_fit, removed_all, removed_items, refs_after_removals, removal_position, lemma_removals_fit_prefix};
use crate::refs::{refs_valid, refs_after_removal, adjust_refs, lemma_removal_keeps_references};

verus! {

/// The format version written into new task files.
pub const FILE_VER: u32 = 1;

/// Everything the to-do list holds.
pub struct TaskFile {
    pub version: u32,
    pub tasks: Vec<Task>,
    pub folders: Vec<Folder>,
}

/// `after` is `before` with the tasks at `positions` removed in turn, each
/// folder following every removal as `refs_after_removal` says.
pub open spec fn tasks_removed(before: TaskFile, after: TaskFile, positions: Seq<usize>) -> bool {
    &&& after.tasks@ == removed_all(before.tasks@, positions)
    &&& after.folders@.len() == before.folders@.len()
    &&& forall|f: int|
        0 <= f < after.folders@.len() ==> {
            &&& (#[trigger] after.folders@[f]).name == before.folders@[f].name
            &&& after.folders@[f].desc == before.folders@[f].desc
            &&& after.folders@[f].tasks@ == refs_after_removals(before.folders@[f].tasks@, positions)
        }
    &&& after.version == before.version
}

/// `after` is `before` with the folders at `positions` removed in turn.
pub open spec fn folders_removed(before: TaskFile, after: TaskFile, positions: Seq<usize>) -> bool {
    &&& after.folders@ == removed_all(before.folders@, positions)
    &&& after.tasks@ == before.tasks@
    &&& after.version == before.version
}

/// One of the first `n` indices of `ids` is `i`.
pub open spec fn picks(ids: Seq<usize>, n: int, i: int) -> bool {
    exists|j: int| 0 <= j < n && #[trigger] ids[j] == i
}

/// `after` is `before` with the tasks that `ids` names renamed to `name`.
pub open spec fn tasks_renamed(before: TaskFile, after: TaskFile, ids: Seq<usize>, name: Seq<char>) -> bool {
    &&& after.tasks@.len() == before.tasks@.len()
    &&& forall|i: int|
        0 <= i < after.tasks@.len() ==> if picks(ids, ids.len() as int, i) {
            &&& (#[trigger] after.tasks@[i]).name@ == name
            &&& after.tasks@[i].done == before.tasks@[i].done
            &&& after.tasks@[i].path == before.tasks@[i].path
        } else {
            after.tasks@[i] == before.tasks@[i]
        }
    &&& after.folders@ == before.folders@
    &&& after.version == before.version
}

/// `after` is `before` with the tasks that `ids` names marked done.
pub open spec fn tasks_completed(before: TaskFile, after: TaskFile, ids: Seq<usize>) -> bool {
    &&& after.tasks@.len() == before.tasks@.len()
    &&& forall|i: int|
        0 <= i < after.tasks@.len() ==> if picks(ids, ids.len() as int, i) {
            (#[trigger] after.tasks@[i]) == before.tasks@[i].marked_done()
        } else {
            after.tasks@[i] == before.tasks@[i]
        }
    &&& after.folders@ == before.folders@
    &&& after.version == before.version
}

/// `after` is `before` with the folders that `ids` names described by
/// `desc`.
pub open spec fn folders_described(before: TaskFile, after: TaskFile, ids: Seq<usize>, desc: Seq<char>) -> bool {
    &&& after.folders@.len() == before.folders@.len()
    &&& forall|f: int|
        0 <= f < after.folders@.len() ==> if picks(ids, ids.len() as int, f) {
            &&& (#[trigger] after.folders@[f]).desc@ == desc
            &&& after.folders@[f].name == before.folders@[f].name
            &&& after.folders@[f].tasks == before.folders@[f].tasks
        } else {
            after.folders@[f] == before.folders@[f]
        }
    &&& after.tasks@ == before.tasks@
    &&& after.version == before.version
}

/// None of the first `n` indices of `ids` is already among `existing`
/// followed by the indices before it.
pub open spec fn fresh_prefix(existing: Seq<usize>, ids: Seq<usize>, n: int) -> bool {
    forall|j: int| 0 <= j < n ==> !(existing + ids.take(j)).contains(#[trigger] ids[j])
}

/// `after` is `before` with the tasks `ids` added in turn to the folder at
/// `folder`, stopping at the first one it already holds: `Ok(n)` when all
/// `n` were added, `Err(k)` when the one at position `k` was already there.
pub open spec fn added_to_folder(
    before: TaskFile,
    after: TaskFile,
    folder: usize,
    ids: Seq<usize>,
    r: Result<usize, usize>,
) -> bool {
    let start = before.folders@[folder as int].tasks@;
    &&& after.tasks@ == before.tasks@
    &&& after.version == before.version
    &&& after.folders@.len() == before.folders@.len()
    &&& forall|f: int|
        0 <= f < after.folders@.len() && f != folder ==> #[trigger] after.folders@[f] == before.folders@[f]
    &&& ids.len() == 0 ==> after.folders@ == before.folders@ && r == Ok::<usize, usize>(0)
    &&& ids.len() > 0 ==> {
        &&& after.folders@[folder as int].name == before.folders@[folder as int].name
        &&& after.folders@[folder as int].desc == before.folders@[folder as int].desc
        &&& match r {
            Ok(n) => {
                &&& n == ids.len()
                &&& fresh_prefix(start, ids, n as int)
                &&& after.folders@[folder as int].tasks@ == start + ids
            },
            Err(k) => {
                &&& k < ids.len()
                &&& fresh_prefix(start, ids, k as int)
                &&& (start + ids.take(k as int)).contains(ids[k as int])
                &&& after.folders@[folder as int].tasks@ == start + ids.take(k as int)
            },
        }
    }
}

/// `after` is `before` with the references at `indices` taken out in turn
/// from the folder at `folder`; `out` are the references taken out.
pub open spec fn removed_from_folder(
    before: TaskFile,
    after: TaskFile,
    folder: usize,
    indices: Seq<usize>,
    out: Seq<usize>,
) -> bool {
    &&& after.tasks@ == before.tasks@
    &&& after.version == before.version
    &&& after.folders@.len() == before.folders@.len()
    &&& forall|f: int|
        0 <= f < after.folders@.len() && f != folder ==> #[trigger] after.folders@[f] == before.folders@[f]
    &&& indices.len() == 0 ==> after.folders@ == before.folders@ && out.len() == 0
    &&& indices.len() > 0 ==> {
        &&& after.folders@[folder as int].name == before.folders@[folder as int].name
        &&& after.folders@[folder as int].desc == before.folders@[folder as int].desc
        &&& after.folders@[folder as int].tasks@ == removed_all(before.folders@[folder as int].tasks@, indices)
        &&& out == removed_items(before.folders@[folder as int].tasks@, indices)
    }
}

impl TaskFile {
    /// The names of the tasks, in order.
    pub open spec fn task_names(self) -> Seq<Seq<char>> {
        self.tasks@.map_values(|t: Task| t.name@)
    }

    /// The names of the folders, in order.
    pub open spec fn folder_names(self) -> Seq<Seq<char>> {
        self.folders@.map_values(|f: Folder| f.name@)
    }

    /// The task file used when none has been stored yet: current version,
    /// no tasks, no folders.
    pub fn new() -> (r: TaskFile)
        ensures
            r.version == FILE_VER,
            r.tasks@.len() == 0,
            r.folders@.len() == 0,
            r.wf(),
    {
        TaskFile { version: FILE_VER, tasks: Vec::new(), folders: Vec::new() }
    }

    /// Every folder refers only to tasks that exist, and to each at most once.
    pub open spec fn wf(self) -> bool {
        forall|f: int|
            0 <= f < self.folders@.len() ==> refs_valid(#[trigger] self.folders@[f].tasks@, self.tasks@.len())
    }

    /// Adds a task at the end of the task list.
    pub fn add_task(&mut self, task: Task)
        ensures
            final(self).tasks@ == old(self).tasks@.push(task),
            final(self).folders@ == old(self).folders@,
            final(self).version == old(self).version,
            old(self).wf() ==> final(self).wf(),
    {
        self.tasks.push(task);
    }

    /// Adds a folder at the end of the folder list.
    pub fn add_folder(&mut self, folder: Folder)
        ensures
            final(self).folders@ == old(self).folders@.push(folder),
            final(self).tasks@ == old(self).tasks@,
            final(self).version == old(self).version,
            old(self).wf() && refs_valid(folder.tasks@, old(self).tasks@.len()) ==> final(self).wf(),
    {
        self.folders.push(folder);
    }

    /// Removes the task at `id` and makes every folder follow: its references
    /// are put in ascending order, one reference to `id` is dropped, and
    /// those above `id` are lowered by one. Returns the removed task.
    pub fn remove_task_at(&mut self, id: usize) -> (r: Task)
        requires
            id < old(self).tasks@.len(),
        ensures
            r == old(self).tasks@[id as int],
            final(self).tasks@ == old(self).tasks@.remove(id as int),
            final(self).folders@.len() == old(self).folders@.len(),
            forall|f: int|
                0 <= f < final(self).folders@.len() ==> {
                    &&& (#[trigger] final(self).folders@[f]).name == old(self).folders@[f].name
                    &&& final(self).folders@[f].desc == old(self).folders@[f].desc
                    &&& final(self).folders@[f].tasks@ == refs_after_removal(old(self).folders@[f].tasks@, id)
                },
            final(self).version == old(self).version,
            old(self).wf() ==> final(self).wf(),
    {
        let ghost before = *self;
        let t = self.tasks.remove(id);
        let mut i: usize = 0;
        while i < self.folders.len()
            invariant
                self.tasks@ == before.tasks@.remove(id as int),
                self.version == before.version,
                self.folders@.len() == before.folders@.len(),
                i <= self.folders@.len(),
                forall|f: int|
                    0 <= f < i ==> {
                        &&& (#[trigger] self.folders@[f]).name == before.folders@[f].name
                        &&& self.folders@[f].desc == before.folders@[f].desc
                        &&& self.folders@[f].tasks@ == refs_after_removal(before.folders@[f].tasks@, id)
                    },
                forall|f: int| i <= f < self.folders@.len() ==> #[trigger] self.folders@[f] == before.folders@[f],
            decreases self.folders@.len() - i,
        {
            let adjusted = adjust_refs(&self.folders[i].tasks, id);
            self.folders[i].tasks = adjusted;
            i = i + 1;
        }
        proof {
            if before.wf() {
                assert forall|f: int| 0 <= f < self.folders@.len() implies refs_valid(
                    #[trigger] self.folders@[f].tasks@,
                    self.tasks@.len(),
                ) by {
                    assert(refs_valid(before.folders@[f].tasks@, before.tasks@.len()));
                    lemma_removal_keeps_references(before.tasks@, before.folders@[f].tasks@, id);
                }
            }
        }
        t
    }

    /// Removes the tasks that `ids` names, as indices taken before any
    /// removal, one after the other: each index is lowered by the number of
    /// earlier removal positions below it, and the task there is removed,
    /// its folders following as `remove_task_at` says. Returns the removed
    /// tasks in order.
    pub fn remove_tasks(&mut self, ids: &Vec<usize>) -> (r: Vec<Task>)
        requires
            removals_fit(ids@, old(self).tasks@.len()),
        ensures
            tasks_removed(*old(self), *final(self), removal_positions(ids@)),
            r@ == removed_items(old(self).tasks@, removal_positions(ids@)),
            old(self).wf() ==> final(self).wf(),
    {
        let ghost before = *self;
        let mut removed: Vec<usize> = Vec::new();
        let mut out: Vec<Task> = Vec::new();
        let mut k: usize = 0;
        assert(ids@.take(0) =~= Seq::<usize>::empty());
        while k < ids.len()
            invariant
                k <= ids.len(),
                removals_fit(ids@, before.tasks@.len()),
                removed@ == removal_positions(ids@.take(k as int)),
                self.tasks@ == removed_all(before.tasks@, removed@),
                self.tasks@.len() == before.tasks@.len() - k,
                out@ == removed_items(before.tasks@, removed@),
                self.folders@.len() == before.folders@.len(),
                forall|f: int|
                    0 <= f < self.folders@.len() ==> {
                        &&& (#[trigger] self.folders@[f]).name == before.folders@[f].name
                        &&& self.folders@[f].desc == before.folders@[f].desc
                        &&& self.folders@[f].tasks@ == refs_after_removals(
                            before.folders@[f].tasks@,
                            removed@,
                        )
                    },
                self.version == before.version,
                before.wf() ==> self.wf(),
            decreases ids.len() - k,
        {
            proof {
                lemma_removals_fit_prefix(ids@, before.tasks@.len(), k + 1);
                assert(ids@.take(k + 1).drop_last() =~= ids@.take(k as int));
            }
            let id = removal_position(&removed, ids[k]);
            let ghost before_step = *self;
            let t = self.remove_task_at(id);
            out.push(t);
            removed.push(id);
            proof {
                assert(removed@.drop_last() =~= removal_positions(ids@.take(k as int)));
            }
            assert(forall|f: int|
                0 <= f < self.folders@.len() ==> #[trigger] self.folders@[f].tasks@ == refs_after_removals(
                    before.folders@[f].tasks@,
                    removed@,
                )) by {
                assert forall|f: int| 0 <= f < self.folders@.len() implies #[trigger] self.folders@[f].tasks@
                    == refs_after_removals(before.folders@[f].tasks@, removed@) by {
                    assert(before_step.folders@[f].tasks@ == refs_after_removals(
                        before.folders@[f].tasks@,
                        removed@.drop_last(),
                    ));
                }
            }
            k = k + 1;
        }
        assert(ids@.take(ids.len() as int) =~= ids@);
        out
    }

    /// Removes the folders that `ids` names, as indices taken before any
    /// removal, one after the other, in the same way as `remove_tasks`; the
    /// tasks stay as they are. Returns the removed folders in order.
    pub fn remove_folders(&mut self, ids: &Vec<usize>) -> (r: Vec<Folder>)
        requires
            removals_fit(ids@, old(self).folders@.len()),
        ensures
            folders_removed(*old(self), *final(self), removal_positions(ids@)),
            r@ == removed_items(old(self).folders@, removal_positions(ids@)),
            old(self).wf() ==> final(self).wf(),
    {
        let ghost before = *self;
        let mut removed: Vec<usize> = Vec::new();
        let mut out: Vec<Folder> = Vec::new();
        let mut k: usize = 0;
        assert(ids@.take(0) =~= Seq::<usize>::empty());
        while k < ids.len()
            invariant
                k <= ids.len(),
                removals_fit(ids@, before.folders@.len()),
                removed@ == removal_positions(ids@.take(k as int)),
                self.folders@ == removed_all(before.folders@, removed@),
                self.folders@.len() == before.folders@.len() - k,
                out@ == removed_items(before.folders@, removed@),
                self.tasks@ == before.tasks@,
                self.version == before.version,
                before.wf() ==> self.wf(),
            decreases ids.len() - k,
        {
            proof {
                lemma_removals_fit_prefix(ids@, before.folders@.len(), k + 1);
                assert(ids@.take(k + 1).drop_last() =~= ids@.take(k as int));
            }
            let id = removal_position(&removed, ids[k]);
            let f = self.folders.remove(id);
            out.push(f);
            removed.push(id);
            proof {
                assert(removed@.drop_last() =~= removal_positions(ids@.take(k as int)));
            }
            k = k + 1;
        }
        assert(ids@.take(ids.len() as int) =~= ids@);
        out
    }

    /// Gives each task that `ids` names the name `new`; nothing else changes.
    pub fn rename_tasks(&mut self, ids: &Vec<usize>, new: &String)
        requires
            forall|k: int| 0 <= k < ids@.len() ==> #[trigger] ids@[k] < old(self).tasks@.len(),
        ensures
            tasks_renamed(*old(self), *final(self), ids@, new@),
            old(self).wf() ==> final(self).wf(),
    {
        let ghost before = *self;
        let mut k: usize = 0;
        while k < ids.len()
            invariant
                k <= ids.len(),
                forall|j: int| 0 <= j < ids@.len() ==> #[trigger] ids@[j] < before.tasks@.len(),
                self.tasks@.len() == before.tasks@.len(),
                forall|i: int|
                    0 <= i < self.tasks@.len() ==> if picks(ids@, k as int, i) {
                        &&& (#[trigger] self.tasks@[i]).name@ == new@
                        &&& self.tasks@[i].done == before.tasks@[i].done
                        &&& self.tasks@[i].path == before.tasks@[i].path
                    } else {
                        self.tasks@[i] == before.tasks@[i]
                    },
                self.folders@ == before.folders@,
                self.version == before.version,
            decreases ids.len() - k,
        {
            let index = ids[k];
            self.tasks[index].name = new.clone();
            k = k + 1;
        }
    }

    /// Marks each task that `ids` names done; nothing else changes.
    pub fn complete_tasks(&mut self, ids: &Vec<usize>)
        requires
            forall|k: int| 0 <= k < ids@.len() ==> #[trigger] ids@[k] < old(self).tasks@.len(),
        ensures
            tasks_completed(*old(self), *final(self), ids@),
            old(self).wf() ==> final(self).wf(),
    {
        let ghost before = *self;
        let mut k: usize = 0;
        while k < ids.len()
            invariant
                k <= ids.len(),
                forall|j: int| 0 <= j < ids@.len() ==> #[trigger] ids@[j] < before.tasks@.len(),
                self.tasks@.len() == before.tasks@.len(),
                forall|i: int|
                    0 <= i < self.tasks@.len() ==> if picks(ids@, k as int, i) {
                        (#[trigger] self.tasks@[i]) == before.tasks@[i].marked_done()
                    } else {
                        self.tasks@[i] == before.tasks@[i]
                    },
                self.folders@ == before.folders@,
                self.version == before.version,
            decreases ids.len() - k,
        {
            let index = ids[k];
            self.tasks[index].done = true;
            k = k + 1;
        }
    }

    /// Gives each folder that `ids` names the description `desc`; nothing
    /// else changes.
    pub fn set_folder_descs(&mut self, ids: &Vec<usize>, desc: &String)
        requires
            forall|k: int| 0 <= k < ids@.len() ==> #[trigger] ids@[k] < old(self).folders@.len(),
        ensures
            folders_described(*old(self), *final(self), ids@, desc@),
            old(self).wf() ==> final(self).wf(),
    {
        let ghost before = *self;
        let mut k: usize = 0;
        while k < ids.len()
            invariant
                k <= ids.len(),
                forall|j: int| 0 <= j < ids@.len() ==> #[trigger] ids@[j] < before.folders@.len(),
                self.folders@.len() == before.folders@.len(),
                forall|f: int|
                    0 <= f < self.folders@.len() ==> if picks(ids@, k as int, f) {
                        &&& (#[trigger] self.folders@[f]).desc@ == desc@
                        &&& self.folders@[f].name == before.folders@[f].name
                        &&& self.folders@[f].tasks == before.folders@[f].tasks
                    } else {
                        self.folders@[f] == before.folders@[f]
                    },
                self.tasks@ == before.tasks@,
                self.version == before.version,
            decreases ids.len() - k,
        {
            let index = ids[k];
            self.folders[index].desc = desc.clone();
            k = k + 1;
        }
        proof {
            if before.wf() {
                assert forall|f: int| 0 <= f < self.folders@.len() implies refs_valid(
                    #[trigger] self.folders@[f].tasks@,
                    self.tasks@.len(),
                ) by {
                    assert(refs_valid(before.folders@[f].tasks@, before.tasks@.len()));
                }
            }
        }
    }

    /// Adds the tasks `ids` to the folder at `folder`, one after the other,
    /// and stops at the first task the folder already holds. Returns
    /// `Ok(n)` when all `n` were added, or `Err(k)` when the task at position
    /// `k` of `ids` was already there, the `k` before it having been added.
    pub fn add_tasks_to_folder(&mut self, folder: usize, ids: &Vec<usize>) -> (r: Result<usize, usize>)
        requires
            ids@.len() > 0 ==> folder < old(self).folders@.len(),
        ensures
            added_to_folder(*old(self), *final(self), folder, ids@, r),
            old(self).wf() && (forall|k: int| 0 <= k < ids@.len() ==> #[trigger] ids@[k] < old(self).tasks@.len())
                ==> final(self).wf(),
    {
        let ghost before = *self;
        if ids.len() == 0 {
            return Ok(0);
        }
        let ghost start = before.folders@[folder as int].tasks@;
        let mut k: usize = 0;
        assert(ids@.take(0) =~= Seq::<usize>::empty());
        assert(start + ids@.take(0) =~= start);
        while k < ids.len()
            invariant
                before == *old(self),
                0 < ids@.len(),
                folder < before.folders@.len(),
                start == before.folders@[folder as int].tasks@,
                k <= ids.len(),
                self.tasks@ == before.tasks@,
                self.version == before.version,
                self.folders@.len() == before.folders@.len(),
                forall|f: int|
                    0 <= f < self.folders@.len() && f != folder ==> #[trigger] self.folders@[f] == before.folders@[f],
                self.folders@[folder as int].name == before.folders@[folder as int].name,
                self.folders@[folder as int].desc == before.folders@[folder as int].desc,
                self.folders@[folder as int].tasks@ == start + ids@.take(k as int),
                fresh_prefix(start, ids@, k as int),
                before.wf() && (forall|j: int| 0 <= j < ids@.len() ==> #[trigger] ids@[j] < before.tasks@.len())
                    ==> self.wf(),
            decreases ids.len() - k,
        {
            let index = ids[k];
            if has_ref(&self.folders[folder].tasks, index) {
                return Err(k);
            }
            let ghost prev = self.folders@[folder as int].tasks@;
            self.folders[folder].tasks.push(index);
            assert(start + ids@.take(k + 1) =~= prev.push(index));
            proof {
                if before.wf() && (forall|j: int| 0 <= j < ids@.len() ==> #[trigger] ids@[j] < before.tasks@.len()) {
                    let now = self.folders@[folder as int].tasks@;
                    assert(refs_valid(prev, self.tasks@.len()));
                    assert(ids@[k as int] < before.tasks@.len());
                    assert forall|a: int, b: int| 0 <= a < now.len() && 0 <= b < now.len() && a != b implies now[a] != now[b] by {
                        if b == prev.len() {
                            assert(prev.contains(prev[a]));
                        } else if a == prev.len() {
                            assert(prev.contains(prev[b]));
                        }
                    }
                    assert forall|f: int| 0 <= f < self.folders@.len() implies refs_valid(
                        #[trigger] self.folders@[f].tasks@,
                        self.tasks@.len(),
                    ) by {
                        if f != folder {
                            assert(refs_valid(before.folders@[f].tasks@, before.tasks@.len()));
                        }
                    }
                }
            }
            k = k + 1;
        }
        assert(ids@.take(ids.len() as int) =~= ids@);
        Ok(k)
    }

    /// Takes out of the folder at `folder` the references at the positions
    /// `indices`, one after the other, each position taken in the list as
    /// it is at that point. Returns the references taken out, in order.
    pub fn remove_from_folder(&mut self, folder: usize, indices: &Vec<usize>) -> (r: Vec<usize>)
        requires
            indices@.len() > 0 ==> folder < old(self).folders@.len(),
            forall|j: int| 0 <= j < indices@.len() - 1 ==> #[trigger] indices@[j] >= folder,
            forall|k: int|
                0 <= k < indices@.len() ==> #[trigger] indices@[k] + k < old(self).folders@[folder as int].tasks@.len(),
        ensures
            removed_from_folder(*old(self), *final(self), folder, indices@, r@),
            old(self).wf() ==> final(self).wf(),
    {
        let ghost before = *self;
        let mut out: Vec<usize> = Vec::new();
        if indices.len() == 0 {
            return out;
        }
        let ghost start = before.folders@[folder as int].tasks@;
        let mut positions: Vec<usize> = Vec::new();
        let mut k: usize = 0;
        assert(indices@.take(0) =~= Seq::<usize>::empty());
        while k < indices.len()
            invariant
                before == *old(self),
                0 < indices@.len(),
                folder < before.folders@.len(),
                start == before.folders@[folder as int].tasks@,
                forall|j: int|
                    0 <= j < indices@.len() ==> #[trigger] indices@[j] + j < start.len(),
                k <= indices.len(),
                self.tasks@ == before.tasks@,
                self.version == before.version,
                self.folders@.len() == before.folders@.len(),
                forall|f: int|
                    0 <= f < self.folders@.len() && f != folder ==> #[trigger] self.folders@[f] == before.folders@[f],
                self.folders@[folder as int].name == before.folders@[folder as int].name,
                self.folders@[folder as int].desc == before.folders@[folder as int].desc,
                self.folders@[folder as int].tasks@ == removed_all(start, indices@.take(k as int)),
                self.folders@[folder as int].tasks@.len() == start.len() - k,
                out@ == removed_items(start, indices@.take(k as int)),
                positions@ == indices@.take(k as int),
                forall|j: int| 0 <= j < indices@.len() - 1 ==> #[trigger] indices@[j] >= folder,
                before.wf() ==> self.wf(),
            decreases indices.len() - k,
        {
            let index = indices[k];
            assert(indices@.take(k + 1).drop_last() =~= indices@.take(k as int));
            // Each earlier position below the folder index would take one
            // off a count that starts at zero; the contract rules that out,
            // so the folder index stays as it is.
            let mut down: usize = 0;
            let mut j: usize = 0;
            while j < positions.len()
                invariant
                    j <= positions.len(),
                    down == 0,
                    positions@ == indices@.take(k as int),
                    forall|i: int| 0 <= i < indices@.len() - 1 ==> #[trigger] indices@[i] >= folder,
                    k < indices@.len(),
                decreases positions.len() - j,
            {
                if positions[j] < folder {
                    down = down - 1;
                }
                j = j + 1;
            }
            let id = folder - down;
            let ghost prev = self.folders@[folder as int].tasks@;
            let value = self.folders[id].tasks.remove(index);
            positions.push(index);
            out.push(value);
            proof {
                if before.wf() {
                    assert(refs_valid(prev, self.tasks@.len()));
                    lemma_remove_keeps_valid(prev, self.tasks@.len(), index as int);
                    assert forall|f: int| 0 <= f < self.folders@.len() implies refs_valid(
                        #[trigger] self.folders@[f].tasks@,
                        self.tasks@.len(),
                    ) by {
                        if f != folder {
                            assert(refs_valid(before.folders@[f].tasks@, before.tasks@.len()));
                        }
                    }
                }
            }
            k = k + 1;
        }
        assert(indices@.take(indices.len() as int) =~= indices@);
        out
    }
}

/// Whether `refs` holds `x`.
fn has_ref(refs: &Vec<usize>, x: usize) -> (r: bool)
    ensures
        r == refs@.contains(x),
{
    let mut i: usize = 0;
    while i < refs.len()
        invariant
            i <= refs.len(),
            forall|j: int| 0 <= j < i ==> refs@[j] != x,
        decreases refs.len() - i,
    {
        if refs[i] == x {
            return true;
        }
        i = i + 1;
    }
    false
}

/// Taking one reference out keeps the rest valid.
proof fn lemma_remove_keeps_valid(refs: Seq<usize>, len: nat, i: int)
    requires
        refs_valid(refs, len),
        0 <= i < refs.len(),
    ensures
        refs_valid(refs.remove(i), len),
{
    let r = refs.remove(i);
    assert forall|a: int| 0 <= a < r.len() implies #[trigger] r[a] < len by {
        if a < i {
            assert(r[a] == refs[a]);
        } else {
            assert(r[a] == refs[a + 1]);
        }
    }
    assert forall|a: int, b: int| 0 <= a < r.len() && 0 <= b < r.len() && a != b implies r[a] != r[b] by {
        let a1 = if a < i { a } else { a + 1 };
        let b1 = if b < i { b } else { b + 1 };
        assert(r[a] == refs[a1]);
        assert(r[b] == refs[b1]);
    }
}

} // verus!
