//! The commands and arguments that the command line is parsed into.
use vstd::prelude::*;
use crate::task::ID;

verus! {

/// The whole command line: one command.
pub struct CLI {
    pub commands: Commands,
}

/// Commands on tasks, and the group of folder commands.
pub enum Commands {
    Add(Add),
    List,
    Remove(IDArg),
    Folder(FolderCommands),
    Complete(IDArg),
    Rename(RenameArgs),
}

/// Commands on folders, and on the tasks that a folder holds.
pub enum FolderCommands {
    Add(FolderAddArgs),
    Remove(IDArg),
    List(List),
    SetDesc(FolderSetDescArgs),
    Task(FolderAddTaskArgs),
    TaskRemove(FolderAddTaskArgs),
}

/// A folder, by index, and a selection of tasks.
pub struct FolderAddTaskArgs {
    pub folder: usize,
    pub task: ArgTaskID,
}

/// A selection of tasks and the name to give them.
pub struct RenameArgs {
    pub id: ArgTaskID,
    pub new: String,
}

/// A selection of folders and the description to give them.
pub struct FolderSetDescArgs {
    pub id: ArgTaskID,
    pub desc: String,
}

/// The name and description of a new folder.
pub struct FolderAddArgs {
    pub name: String,
    pub desc: String,
}

/// What a folder listing shows besides the names.
pub struct List {
    pub desc: bool,
    pub tasks: bool,
}

/// A new task: its name, and whether to record the working directory.
pub struct Add {
    pub name: String,
    pub path: bool,
}

/// A selection of entries: by parts of their names, by their indices, or all
/// of them.
#[derive(Clone)]
pub struct ArgTaskID {
    pub name: Vec<String>,
    pub id: Vec<ID>,
    pub all: bool,
}

impl ArgTaskID {
    /// The name parts of the selection, as characters.
    pub open spec fn name_views(self) -> Seq<Seq<char>> {
        self.name@.map_values(|s: String| s@)
    }
}

/// A selection, as the argument of a command.
pub struct IDArg {
    pub id: ArgTaskID,
}

} // verus!
