//! Tasks and folders, the two kinds of entries of a task file.
use vstd::prelude::*;
use vstd::string::*;
use crate::text::{decimal, decimal_string};

verus! {

/// Index of a task in the task file's list of tasks.
pub type ID = usize;

/// One entry of the to-do list: a name, whether it is done, and the working
/// directory it was added from, if that was asked for.
pub struct Task {
    pub done: bool,
    pub name: String,
    pub path: Option<String>,
}

impl Task {
    /// The same task, marked done.
    pub open spec fn marked_done(self) -> Task {
        Task { done: true, name: self.name, path: self.path }
    }

    /// A fresh task, not yet done.
    pub fn new(name: String, path: Option<String>) -> (r: Task)
        ensures
            !r.done,
            r.name == name,
            r.path == path,
    {
        Task { done: false, name, path }
    }

    /// How a task is shown: a box, crossed when done, then the name, as in
    /// `[X]buy milk` or `[ ]buy milk`.
    pub open spec fn shown(self) -> Seq<char> {
        if self.done {
            seq!['[', 'X', ']'] + self.name@
        } else {
            seq!['[', ' ', ']'] + self.name@
        }
    }

    /// The task as it is shown in listings.
    pub fn display_string(&self) -> (r: String)
        ensures
            r@ == self.shown(),
    {
        let mut s = if self.done {
            proof {
                reveal_strlit("[X]");
            }
            String::from_str("[X]")
        } else {
            proof {
                reveal_strlit("[ ]");
            }
            String::from_str("[ ]")
        };
        s.append(self.name.as_str());
        s
    }

    /// The line for the task at `index` in the task list: the index, a
    /// space, the name and a colon, as in `0 finish this README:`.
    pub open spec fn listed(self, index: usize) -> Seq<char> {
        decimal(index as nat) + seq![' '] + self.name@ + seq![':']
    }

    /// The line for the task at `index` in the task list.
    pub fn listing_line(&self, index: usize) -> (r: String)
        ensures
            r@ == self.listed(index),
    {
        let mut s = decimal_string(index);
        proof {
            reveal_strlit(" ");
            reveal_strlit(":");
        }
        s.append(" ");
        s.append(self.name.as_str());
        s.append(":");
        s
    }
}

/// A named, described group of tasks, held as indices into the task list.
pub struct Folder {
    pub name: String,
    pub desc: String,
    pub tasks: Vec<ID>,
}

impl Folder {
    /// An empty folder with a name and a description.
    pub fn new(name: String, description: String) -> (r: Folder)
        ensures
            r.name == name,
            r.desc == description,
            r.tasks@ == Seq::<ID>::empty(),
    {
        Folder { name, desc: description, tasks: Vec::new() }
    }

    /// How a folder is shown: its name, a colon and a space, then its
    /// description.
    pub open spec fn shown(self) -> Seq<char> {
        self.name@ + seq![':', ' '] + self.desc@
    }

    /// The folder as it is shown in listings.
    pub fn display_string(&self) -> (r: String)
        ensures
            r@ == self.shown(),
    {
        let mut s = self.name.clone();
        proof {
            reveal_strlit(": ");
        }
        s.append(": ");
        s.append(self.desc.as_str());
        s
    }
}

/// A task is shown as a three-character box, `[X]` exactly when it is done
/// and `[ ]` otherwise, followed by its name unchanged.
pub proof fn lemma_task_shown(t: Task)
    ensures
        t.shown().len() == t.name@.len() + 3,
        t.shown()[0] == '[',
        t.shown()[2] == ']',
        t.shown()[1] == 'X' || t.shown()[1] == ' ',
        (t.shown()[1] == 'X') == t.done,
        t.shown().subrange(3, t.shown().len() as int) == t.name@,
{
    assert(t.shown().subrange(3, t.shown().len() as int) =~= t.name@);
}

/// A folder is shown as its name unchanged, a colon and a space, then its
/// description unchanged.
pub proof fn lemma_folder_shown(f: Folder)
    ensures
        f.shown().len() == f.name@.len() + 2 + f.desc@.len(),
        f.shown().subrange(0, f.name@.len() as int) == f.name@,
        f.shown()[f.name@.len() as int] == ':',
        f.shown()[f.name@.len() as int + 1] == ' ',
        f.shown().subrange(f.name@.len() as int + 2, f.shown().len() as int) == f.desc@,
{
    assert(f.shown().subrange(0, f.name@.len() as int) =~= f.name@);
    assert(f.shown().subrange(f.name@.len() as int + 2, f.shown().len() as int) =~= f.desc@);
}

/// The line of the task at `index` in the task list is the index in decimal,
/// a space, the name unchanged, and a colon.
pub proof fn lemma_task_listed(t: Task, index: usize)
    ensures
        t.listed(index).subrange(0, decimal(index as nat).len() as int) == decimal(index as nat),
        t.listed(index)[decimal(index as nat).len() as int] == ' ',
        t.listed(index).subrange(decimal(index as nat).len() as int + 1, t.listed(index).len() - 1) == t.name@,
        t.listed(index).last() == ':',
        t.listed(index).len() == decimal(index as nat).len() + t.name@.len() + 2,
{
    let dl = decimal(index as nat).len() as int;
    let l = t.listed(index);
    assert(l.subrange(0, dl) =~= decimal(index as nat));
    assert(l.subrange(dl + 1, l.len() - 1) =~= t.name@);
}

} // verus!
