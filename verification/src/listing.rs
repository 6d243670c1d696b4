//! The lines that the listing commands print.
use vstd::prelude::*;
use vstd::string::*;
use crate::task::{Task, Folder};
use crate::taskfile::TaskFile;
use crate::text::{decimal, decimal_string};
use crate::argid::{name_matches, task_matches, folder_matches, lemma_name_matches};

verus! {

/// The lines of `lines` as characters.
pub open spec fn line_views(lines: Seq<String>) -> Seq<Seq<char>> {
    lines.map_values(|s: String| s@)
}

/// Every folder refers only to tasks that exist.
pub open spec fn refs_exist(tf: TaskFile) -> bool {
    forall|f: int, k: int|
        0 <= f < tf.folders@.len() && 0 <= k < tf.folders@[f].tasks@.len() ==> #[trigger] tf.folders@[f].tasks@[k]
            < tf.tasks@.len()
}

/// In a well-formed task file every reference names an existing task, so
/// the folder list can always show the tasks.
pub proof fn lemma_wf_refs_exist(tf: TaskFile)
    requires
        tf.wf(),
    ensures
        refs_exist(tf),
{
    assert forall|f: int, k: int|
        0 <= f < tf.folders@.len() && 0 <= k < tf.folders@[f].tasks@.len() implies #[trigger] tf.folders@[f].tasks@[k]
        < tf.tasks@.len() by {
        assert(crate::refs::refs_valid(tf.folders@[f].tasks@, tf.tasks@.len()));
    }
}

/// The task list: one line per task, as `Task::listed` shows it.
pub open spec fn task_lines(tasks: Seq<Task>) -> Seq<Seq<char>>
    decreases tasks.len(),
{
    if tasks.len() == 0 {
        Seq::empty()
    } else {
        task_lines(tasks.drop_last()).push(tasks.last().listed((tasks.len() - 1) as usize))
    }
}

/// The lines for the folder at `f`: `[f] name:`; then `(description)` when
/// descriptions are shown; then, when tasks are shown, `\t[i] task` for each
/// task `i` the folder refers to.
pub open spec fn folder_lines(tf: TaskFile, f: int, desc: bool, tasks: bool) -> Seq<Seq<char>> {
    let folder = tf.folders@[f];
    let head = seq!['['] + decimal(f as nat) + seq![']', ' '] + folder.name@ + seq![':'];
    let d = if desc {
        seq![seq!['('] + folder.desc@ + seq![')']]
    } else {
        Seq::<Seq<char>>::empty()
    };
    let t = if tasks {
        folder.tasks@.map_values(
            |i: usize| seq!['\t', '['] + decimal(i as nat) + seq![']', ' '] + tf.tasks@[i as int].shown(),
        )
    } else {
        Seq::<Seq<char>>::empty()
    };
    seq![head] + d + t
}

/// The folder list: the lines of the first `n` folders, in order.
pub open spec fn folders_lines(tf: TaskFile, n: int, desc: bool, tasks: bool) -> Seq<Seq<char>>
    decreases n,
{
    if n <= 0 {
        Seq::empty()
    } else {
        folders_lines(tf, n - 1, desc, tasks) + folder_lines(tf, n - 1, desc, tasks)
    }
}

/// The lines of the task list.
pub fn task_listing(tf: &TaskFile) -> (r: Vec<String>)
    ensures
        line_views(r@) == task_lines(tf.tasks@),
        r@.len() == tf.tasks@.len(),
        forall|i: int|
            0 <= i < r@.len() ==> (#[trigger] r@[i])@ == decimal(i as nat) + seq![' '] + tf.tasks@[i].name@ + seq![
                ':',
            ],
{
    let mut out: Vec<String> = Vec::new();
    let mut i: usize = 0;
    assert(tf.tasks@.take(0) =~= Seq::<Task>::empty());
    assert(line_views(out@) =~= Seq::<Seq<char>>::empty());
    while i < tf.tasks.len()
        invariant
            i <= tf.tasks@.len(),
            line_views(out@) == task_lines(tf.tasks@.take(i as int)),
        decreases tf.tasks@.len() - i,
    {
        let line = tf.tasks[i].listing_line(i);
        let ghost before = out@;
        out.push(line);
        assert(tf.tasks@.take(i + 1).drop_last() =~= tf.tasks@.take(i as int));
        assert(line_views(out@) =~= line_views(before).push(line@));
        i = i + 1;
    }
    assert(tf.tasks@.take(tf.tasks@.len() as int) =~= tf.tasks@);
    proof {
        lemma_task_lines(tf.tasks@);
        assert forall|i: int| 0 <= i < out@.len() implies (#[trigger] out@[i])@ == decimal(i as nat) + seq![' ']
            + tf.tasks@[i].name@ + seq![':'] by {
            assert(line_views(out@)[i] == out@[i]@);
        }
    }
    out
}

/// Whether every folder refers only to tasks that exist.
pub fn check_refs_exist(tf: &TaskFile) -> (r: bool)
    ensures
        r == refs_exist(*tf),
{
    let mut f: usize = 0;
    while f < tf.folders.len()
        invariant
            f <= tf.folders@.len(),
            forall|g: int, k: int|
                0 <= g < f && 0 <= k < tf.folders@[g].tasks@.len() ==> #[trigger] tf.folders@[g].tasks@[k]
                    < tf.tasks@.len(),
        decreases tf.folders@.len() - f,
    {
        let mut k: usize = 0;
        while k < tf.folders[f].tasks.len()
            invariant
                f < tf.folders@.len(),
                k <= tf.folders@[f as int].tasks@.len(),
                forall|j: int| 0 <= j < k ==> #[trigger] tf.folders@[f as int].tasks@[j] < tf.tasks@.len(),
            decreases tf.folders@[f as int].tasks@.len() - k,
        {
            if tf.folders[f].tasks[k] >= tf.tasks.len() {
                return false;
            }
            k = k + 1;
        }
        f = f + 1;
    }
    true
}

/// The lines for one folder.
fn folder_listing_lines(tf: &TaskFile, f: usize, desc: bool, tasks: bool, out: &mut Vec<String>)
    requires
        f < tf.folders@.len(),
        tasks ==> refs_exist(*tf),
    ensures
        line_views(final(out)@) == line_views(old(out)@) + folder_lines(*tf, f as int, desc, tasks),
{
    let ghost start = line_views(out@);
    let folder = &tf.folders[f];
    proof {
        reveal_strlit("[");
        reveal_strlit("] ");
        reveal_strlit(":");
        reveal_strlit("(");
        reveal_strlit(")");
    }
    let mut head = String::from_str("[");
    let num = decimal_string(f);
    head.append(num.as_str());
    head.append("] ");
    head.append(folder.name.as_str());
    head.append(":");
    assert(head@ =~= seq!['['] + decimal(f as nat) + seq![']', ' '] + folder.name@ + seq![':']);
    let ghost before_head = out@;
    out.push(head);
    assert(line_views(out@) =~= line_views(before_head).push(head@));
    let ghost with_head = line_views(out@);
    assert(with_head =~= start.push(seq!['['] + decimal(f as nat) + seq![']', ' '] + folder.name@ + seq![':']));
    if desc {
        let mut d = String::from_str("(");
        d.append(folder.desc.as_str());
        d.append(")");
        assert(d@ =~= seq!['('] + folder.desc@ + seq![')']);
        let ghost before_desc = out@;
        out.push(d);
        assert(line_views(out@) =~= line_views(before_desc).push(d@));
    }
    let ghost with_desc = line_views(out@);
    assert(with_desc =~= with_head + (if desc {
        seq![seq!['('] + folder.desc@ + seq![')']]
    } else {
        Seq::<Seq<char>>::empty()
    }));
    if tasks {
        let ghost refs = folder.tasks@;
        let mut k: usize = 0;
        while k < folder.tasks.len()
            invariant
                tasks,
                refs_exist(*tf),
                f < tf.folders@.len(),
                folder == tf.folders@[f as int],
                refs == folder.tasks@,
                k <= refs.len(),
                line_views(out@) == with_desc + refs.take(k as int).map_values(
                    |i: usize| seq!['\t', '['] + decimal(i as nat) + seq![']', ' '] + tf.tasks@[i as int].shown(),
                ),
            decreases refs.len() - k,
        {
            let index = folder.tasks[k];
            proof {
                reveal_strlit("\t[");
                reveal_strlit("] ");
            }
            assert(tf.folders@[f as int].tasks@[k as int] < tf.tasks@.len());
            let mut line = String::from_str("\t[");
            let num = decimal_string(index);
            line.append(num.as_str());
            line.append("] ");
            let shown = tf.tasks[index].display_string();
            line.append(shown.as_str());
            assert(line@ =~= seq!['\t', '['] + decimal(index as nat) + seq![']', ' '] + tf.tasks@[index as int].shown());
            let ghost before = out@;
            out.push(line);
            assert(refs.take(k + 1) =~= refs.take(k as int).push(index));
            assert(line_views(out@) =~= line_views(before).push(line@));
            assert(refs.take(k + 1).map_values(
                |i: usize| seq!['\t', '['] + decimal(i as nat) + seq![']', ' '] + tf.tasks@[i as int].shown(),
            ) =~= refs.take(k as int).map_values(
                |i: usize| seq!['\t', '['] + decimal(i as nat) + seq![']', ' '] + tf.tasks@[i as int].shown(),
            ).push(line@));
            k = k + 1;
        }
        assert(refs.take(refs.len() as int) =~= refs);
    }
    assert(line_views(out@) =~= start + folder_lines(*tf, f as int, desc, tasks));
}

/// The lines of the folder list, with the descriptions when `desc` is set
/// and the tasks of each folder when `tasks` is set.
pub fn folder_listing(tf: &TaskFile, desc: bool, tasks: bool) -> (r: Vec<String>)
    requires
        tasks ==> refs_exist(*tf),
    ensures
        line_views(r@) == folders_lines(*tf, tf.folders@.len() as int, desc, tasks),
{
    let mut out: Vec<String> = Vec::new();
    let mut f: usize = 0;
    assert(line_views(out@) =~= Seq::<Seq<char>>::empty());
    while f < tf.folders.len()
        invariant
            f <= tf.folders@.len(),
            tasks ==> refs_exist(*tf),
            line_views(out@) == folders_lines(*tf, f as int, desc, tasks),
        decreases tf.folders@.len() - f,
    {
        folder_listing_lines(tf, f, desc, tasks, &mut out);
        f = f + 1;
    }
    out
}

/// What is shown of each task, in order.
pub open spec fn tasks_shown(tf: TaskFile) -> Seq<Seq<char>> {
    tf.tasks@.map_values(|t: Task| t.shown())
}

/// What is shown of each folder, in order.
pub open spec fn folders_shown(tf: TaskFile) -> Seq<Seq<char>> {
    tf.folders@.map_values(|f: Folder| f.shown())
}

/// The lines that explain a name lookup with the matches `m` for `query`:
/// for several matches, `Error. Found multiple matches for "query"` and then
/// one line `i entry` per match; for none, `Error. Zero matches found for
/// "query"`; for exactly one, no line.
pub open spec fn lookup_report(shown: Seq<Seq<char>>, m: Seq<usize>, query: Seq<char>) -> Seq<Seq<char>> {
    if m.len() > 1 {
        seq!["Error. Found multiple matches for \""@ + query + "\""@] + m.map_values(
            |i: usize| decimal(i as nat) + seq![' '] + shown[i as int],
        )
    } else if m.len() == 0 {
        seq!["Error. Zero matches found for \""@ + query + "\""@]
    } else {
        Seq::empty()
    }
}

/// The lines explaining a lookup, from what is shown of each entry and the
/// matches.
fn report_lines(shown: &Vec<String>, m: &Vec<usize>, query: &str) -> (r: Vec<String>)
    requires
        forall|k: int| 0 <= k < m@.len() ==> #[trigger] m@[k] < shown@.len(),
    ensures
        line_views(r@) == lookup_report(line_views(shown@), m@, query@),
{
    let mut out: Vec<String> = Vec::new();
    if m.len() > 1 {
        let mut head = String::from_str("Error. Found multiple matches for \"");
        head.append(query);
        head.append("\"");
        out.push(head);
        let ghost first = line_views(out@);
        let mut k: usize = 0;
        while k < m.len()
            invariant
                k <= m@.len(),
                forall|j: int| 0 <= j < m@.len() ==> #[trigger] m@[j] < shown@.len(),
                first == seq!["Error. Found multiple matches for \""@ + query@ + "\""@],
                line_views(out@) == first + m@.take(k as int).map_values(
                    |i: usize| decimal(i as nat) + seq![' '] + line_views(shown@)[i as int],
                ),
            decreases m@.len() - k,
        {
            let index = m[k];
            proof {
                reveal_strlit(" ");
            }
            let mut line = decimal_string(index);
            line.append(" ");
            line.append(shown[index].as_str());
            assert(line_views(shown@)[index as int] == shown@[index as int]@);
            assert(line@ =~= decimal(index as nat) + seq![' '] + line_views(shown@)[index as int]);
            let ghost before = out@;
            out.push(line);
            assert(line_views(out@) =~= line_views(before).push(line@));
            assert(m@.take(k + 1) =~= m@.take(k as int).push(index));
            assert(m@.take(k + 1).map_values(
                |i: usize| decimal(i as nat) + seq![' '] + line_views(shown@)[i as int],
            ) =~= m@.take(k as int).map_values(
                |i: usize| decimal(i as nat) + seq![' '] + line_views(shown@)[i as int],
            ).push(line@));
            k = k + 1;
        }
        assert(m@.take(m@.len() as int) =~= m@);
    } else if m.len() == 0 {
        let mut line = String::from_str("Error. Zero matches found for \"");
        line.append(query);
        line.append("\"");
        out.push(line);
        assert(line_views(out@) =~= seq![line@]);
    } else {
        assert(line_views(out@) =~= Seq::<Seq<char>>::empty());
    }
    out
}

/// The lines a task lookup by `name` explains itself with: several
/// matches, no match, or (for a single match) none.
pub fn task_lookup_lines(tf: &TaskFile, name: &str) -> (r: Vec<String>)
    ensures
        line_views(r@) == lookup_report(tasks_shown(*tf), name_matches(tf.task_names(), name@), name@),
{
    let mut shown: Vec<String> = Vec::new();
    let mut i: usize = 0;
    while i < tf.tasks.len()
        invariant
            i <= tf.tasks@.len(),
            line_views(shown@) == tasks_shown(*tf).take(i as int),
        decreases tf.tasks@.len() - i,
    {
        let line = tf.tasks[i].display_string();
        let ghost before = shown@;
        shown.push(line);
        assert(line_views(shown@) =~= line_views(before).push(line@));
        i = i + 1;
        assert(line_views(shown@) =~= tasks_shown(*tf).take(i as int));
    }
    assert(tasks_shown(*tf).take(tf.tasks@.len() as int) =~= tasks_shown(*tf));
    let m = task_matches(tf, name);
    proof {
        assert(tf.task_names().len() == tf.tasks.len());
        lemma_name_matches(tf.task_names(), name@);
    }
    report_lines(&shown, &m, name)
}

/// The lines a folder lookup by `name` explains itself with, and whether no
/// folder matched (that line is written to standard output, the others to
/// standard error).
pub fn folder_lookup_lines(tf: &TaskFile, name: &str) -> (r: (Vec<String>, bool))
    ensures
        line_views(r.0@) == lookup_report(folders_shown(*tf), name_matches(tf.folder_names(), name@), name@),
        r.1 == (name_matches(tf.folder_names(), name@).len() == 0),
{
    let mut shown: Vec<String> = Vec::new();
    let mut i: usize = 0;
    while i < tf.folders.len()
        invariant
            i <= tf.folders@.len(),
            line_views(shown@) == folders_shown(*tf).take(i as int),
        decreases tf.folders@.len() - i,
    {
        let line = tf.folders[i].display_string();
        let ghost before = shown@;
        shown.push(line);
        assert(line_views(shown@) =~= line_views(before).push(line@));
        i = i + 1;
        assert(line_views(shown@) =~= folders_shown(*tf).take(i as int));
    }
    assert(folders_shown(*tf).take(tf.folders@.len() as int) =~= folders_shown(*tf));
    let m = folder_matches(tf, name);
    proof {
        assert(tf.folder_names().len() == tf.folders.len());
        lemma_name_matches(tf.folder_names(), name@);
    }
    let none = m.len() == 0;
    (report_lines(&shown, &m, name), none)
}

/// The task list has exactly one line per task of the file, done or not:
/// line `i` is the index `i` in decimal, a space, the name of task `i`, and
/// a colon.
pub proof fn lemma_task_lines(tasks: Seq<Task>)
    requires
        tasks.len() <= usize::MAX,
    ensures
        task_lines(tasks).len() == tasks.len(),
        forall|i: int|
            0 <= i < tasks.len() ==> #[trigger] task_lines(tasks)[i] == decimal(i as nat) + seq![' ']
                + tasks[i].name@ + seq![':'],
    decreases tasks.len(),
{
    if tasks.len() > 0 {
        let e = tasks.drop_last();
        lemma_task_lines(e);
        assert forall|i: int| 0 <= i < tasks.len() implies #[trigger] task_lines(tasks)[i] == decimal(i as nat)
            + seq![' '] + tasks[i].name@ + seq![':'] by {
            if i < e.len() {
                assert(task_lines(e)[i] == decimal(i as nat) + seq![' '] + e[i].name@ + seq![':']);
            } else {
                assert(task_lines(tasks)[i] == tasks.last().listed((tasks.len() - 1) as usize));
            }
        }
    }
}

/// A box with a cross when `done`, then `name`: `[X]name` or `[ ]name`.
pub open spec fn boxed(done: bool, name: Seq<char>) -> Seq<char> {
    seq!['[', if done { 'X' } else { ' ' }, ']'] + name
}

/// How many description lines a folder gets: one when they are shown.
pub open spec fn desc_count(desc: bool) -> int {
    if desc {
        1
    } else {
        0
    }
}

/// How many lines the folder at `f` takes in the folder list.
pub open spec fn block_len(tf: TaskFile, f: int, desc: bool, tasks: bool) -> nat {
    1 + (if desc { 1nat } else { 0nat }) + (if tasks { tf.folders@[f].tasks@.len() } else { 0nat })
}

/// How many lines the first `n` folders take in the folder list.
pub open spec fn blocks_len(tf: TaskFile, n: int, desc: bool, tasks: bool) -> nat
    decreases n,
{
    if n <= 0 {
        0
    } else {
        blocks_len(tf, n - 1, desc, tasks) + block_len(tf, n - 1, desc, tasks)
    }
}

/// The lines of the folder at `f`, whatever tasks it holds: its head line
/// `[f] name:`; its description in brackets when descriptions are shown;
/// and, when tasks are shown, for each task `i` it refers to, a tab, `[i]`,
/// a space, and that task in a box crossed exactly when it is done.
pub proof fn lemma_folder_lines(tf: TaskFile, f: int, desc: bool, tasks: bool)
    requires
        0 <= f < tf.folders@.len(),
    ensures
        folder_lines(tf, f, desc, tasks).len() == block_len(tf, f, desc, tasks),
        folder_lines(tf, f, desc, tasks)[0] == seq!['['] + decimal(f as nat) + seq![']', ' ']
            + tf.folders@[f].name@ + seq![':'],
        desc ==> folder_lines(tf, f, desc, tasks)[1] == seq!['('] + tf.folders@[f].desc@ + seq![')'],
        tasks ==> forall|j: int|
            #![trigger tf.folders@[f].tasks@[j]]
            0 <= j < tf.folders@[f].tasks@.len() ==> folder_lines(tf, f, desc, tasks)[1 + desc_count(desc) + j] == seq!['\t', '['] + decimal(tf.folders@[f].tasks@[j] as nat) + seq![']', ' '] + boxed(
                tf.tasks@[tf.folders@[f].tasks@[j] as int].done,
                tf.tasks@[tf.folders@[f].tasks@[j] as int].name@,
            ),
{
    let folder = tf.folders@[f];
    let d = desc_count(desc);
    let lines = folder_lines(tf, f, desc, tasks);
    if tasks {
        assert forall|j: int| #![trigger folder.tasks@[j]] 0 <= j < folder.tasks@.len() implies lines[1 + d + j] == seq!['\t', '[']
            + decimal(folder.tasks@[j] as nat) + seq![']', ' '] + boxed(
            tf.tasks@[folder.tasks@[j] as int].done,
            tf.tasks@[folder.tasks@[j] as int].name@,
        ) by {
            let t = tf.tasks@[folder.tasks@[j] as int];
            assert(t.shown() =~= boxed(t.done, t.name@));
        }
    }
}

/// The folder list holds, for every folder and whatever tasks it holds,
/// that folder's lines (as `lemma_folder_lines` gives them) at the place
/// where the lines of the folders before it end, and nothing else.
pub proof fn lemma_folders_lines(tf: TaskFile, n: int, desc: bool, tasks: bool)
    requires
        0 <= n <= tf.folders@.len(),
    ensures
        folders_lines(tf, n, desc, tasks).len() == blocks_len(tf, n, desc, tasks),
        forall|f: int, k: int|
            0 <= f < n && 0 <= k < block_len(tf, f, desc, tasks) ==> folders_lines(tf, n, desc, tasks)[blocks_len(
                tf,
                f,
                desc,
                tasks,
            ) + k] == #[trigger] folder_lines(tf, f, desc, tasks)[k],
    decreases n,
{
    if n > 0 {
        lemma_folders_lines(tf, n - 1, desc, tasks);
        lemma_folder_lines(tf, n - 1, desc, tasks);
        let prev = folders_lines(tf, n - 1, desc, tasks);
        let all = folders_lines(tf, n, desc, tasks);
        assert forall|f: int, k: int|
            0 <= f < n && 0 <= k < block_len(tf, f, desc, tasks) implies all[blocks_len(
            tf,
            f,
            desc,
            tasks,
        ) + k] == #[trigger] folder_lines(tf, f, desc, tasks)[k] by {
            if f < n - 1 {
                lemma_blocks_len_grow(tf, f + 1, n - 1, desc, tasks);
                assert(all[blocks_len(tf, f, desc, tasks) + k] == prev[blocks_len(tf, f, desc, tasks) + k]);
            }
        }
    }
}

/// The lines of earlier folders come before those of later ones.
proof fn lemma_blocks_len_grow(tf: TaskFile, a: int, b: int, desc: bool, tasks: bool)
    requires
        0 <= a <= b,
    ensures
        blocks_len(tf, a, desc, tasks) <= blocks_len(tf, b, desc, tasks),
    decreases b - a,
{
    if a < b {
        lemma_blocks_len_grow(tf, a, b - 1, desc, tasks);
    }
}

} // verus!
