//! Picking tasks and folders out of a task file by a selection of names,
//! indices, or everything.
use vstd::prelude::*;
use vstd::string::*;
use crate::args::ArgTaskID;
use crate::taskfile::TaskFile;
use crate::text::{occurs_in, contains_str, decimal, decimal_string};

verus! {

/// What a search was looking for when it failed.
pub enum FindType {
    Name(String),
    Id(usize),
}

/// A selection that names an entry which is not there.
pub struct FindError {
    pub find_type: FindType,
}

/// What a failed search could not find, as plain values.
pub enum Missing {
    Name(Seq<char>),
    Id(usize),
}

impl View for FindError {
    type V = Missing;

    open spec fn view(&self) -> Missing {
        match self.find_type {
            FindType::Name(n) => Missing::Name(n@),
            FindType::Id(i) => Missing::Id(i),
        }
    }
}

impl From<FindType> for FindError {
    fn from(value: FindType) -> (r: Self) {
        FindError { find_type: value }
    }
}

impl vstd::std_specs::convert::FromSpecImpl<FindType> for FindError {
    open spec fn obeys_from_spec() -> bool {
        true
    }

    open spec fn from_spec(v: FindType) -> Self {
        FindError { find_type: v }
    }
}

/// The message shown for a failed search.
pub open spec fn missing_message(m: Missing) -> Seq<char> {
    match m {
        Missing::Id(id) => "Coldn't find id: "@ + decimal(id as nat),
        Missing::Name(name) => "Coldn't find name: \""@ + name + "\""@,
    }
}

impl FindError {
    /// The message shown for this error, such as `Coldn't find id: 7`.
    pub fn message(&self) -> (r: String)
        ensures
            r@ == missing_message(self@),
    {
        match &self.find_type {
            FindType::Id(id) => {
                let mut s = String::from_str("Coldn't find id: ");
                let d = decimal_string(*id);
                s.append(d.as_str());
                s
            },
            FindType::Name(name) => {
                let mut s = String::from_str("Coldn't find name: \"");
                s.append(name.as_str());
                s.append("\"");
                s
            },
        }
    }
}

/// The indices, in increasing order, of the entries whose name contains
/// `query`.
pub open spec fn name_matches(names: Seq<Seq<char>>, query: Seq<char>) -> Seq<usize>
    decreases names.len(),
{
    if names.len() == 0 {
        Seq::empty()
    } else {
        let earlier = name_matches(names.drop_last(), query);
        if occurs_in(query, names.last()) {
            earlier.push((names.len() - 1) as usize)
        } else {
            earlier
        }
    }
}

/// The entry that `query` picks out: the one entry whose name contains it,
/// or none when no name or more than one name does.
pub open spec fn unique_match(names: Seq<Seq<char>>, query: Seq<char>) -> Option<usize> {
    let m = name_matches(names, query);
    if m.len() == 1 {
        Some(m[0])
    } else {
        None
    }
}

/// The entries that the name parts pick out, in the order of the parts, or
/// the position of the first part that picks out no single entry.
pub open spec fn resolve_names(names: Seq<Seq<char>>, queries: Seq<Seq<char>>) -> Result<
    Seq<usize>,
    int,
>
    decreases queries.len(),
{
    if queries.len() == 0 {
        Ok(Seq::empty())
    } else {
        match resolve_names(names, queries.drop_last()) {
            Err(k) => Err(k),
            Ok(found) => match unique_match(names, queries.last()) {
                Some(i) => Ok(found.push(i)),
                None => Err(queries.len() - 1),
            },
        }
    }
}

/// The position of the first index that is not below `len`, if any.
pub open spec fn first_out_of_range(ids: Seq<usize>, len: nat) -> Option<int>
    decreases ids.len(),
{
    if ids.len() == 0 {
        None
    } else {
        match first_out_of_range(ids.drop_last(), len) {
            Some(k) => Some(k),
            None => if ids.last() >= len {
                Some(ids.len() - 1)
            } else {
                None
            },
        }
    }
}

/// The indices below `len`, in their order.
pub open spec fn in_range(ids: Seq<usize>, len: nat) -> Seq<usize> {
    ids.filter(|i: usize| i < len)
}

/// Every index below `len`, in increasing order.
pub open spec fn all_indices(len: nat) -> Seq<usize> {
    Seq::new(len, |i: int| i as usize)
}

/// The tasks a selection picks out of the task names: all of them; or those
/// the name parts pick, then the indices as given. A name part that picks
/// no single task, or else an index past the end, fails the selection.
pub open spec fn select_tasks(names: Seq<Seq<char>>, argid: ArgTaskID) -> Result<Seq<usize>, Missing> {
    if argid.all {
        Ok(all_indices(names.len()))
    } else {
        match resolve_names(names, argid.name_views()) {
            Err(k) => Err(Missing::Name(argid.name_views()[k])),
            Ok(found) => match first_out_of_range(argid.id@, names.len()) {
                Some(k) => Err(Missing::Id(argid.id@[k])),
                None => Ok(found + argid.id@),
            },
        }
    }
}

/// The folders a selection picks out of the folder names: all of them; or
/// those the name parts pick, then the indices that are in range. A name
/// part that picks no single folder fails the selection; indices past the
/// end are passed over.
pub open spec fn select_folders(names: Seq<Seq<char>>, argid: ArgTaskID) -> Result<Seq<usize>, Missing> {
    if argid.all {
        Ok(all_indices(names.len()))
    } else {
        match resolve_names(names, argid.name_views()) {
            Err(k) => Err(Missing::Name(argid.name_views()[k])),
            Ok(found) => Ok(found + in_range(argid.id@, names.len())),
        }
    }
}

/// Once a prefix of the name parts fails, the whole list fails at the same
/// part.
proof fn lemma_resolve_prefix_err(names: Seq<Seq<char>>, queries: Seq<Seq<char>>, m: int)
    requires
        0 <= m <= queries.len(),
        resolve_names(names, queries.take(m)) is Err,
    ensures
        resolve_names(names, queries) == resolve_names(names, queries.take(m)),
    decreases queries.len() - m,
{
    if m == queries.len() {
        assert(queries.take(m) =~= queries);
    } else {
        assert(queries.take(m + 1).drop_last() =~= queries.take(m));
        lemma_resolve_prefix_err(names, queries, m + 1);
    }
}

/// Once a prefix of the indices holds one out of range, the whole list
/// does, at the same position.
proof fn lemma_out_of_range_prefix(ids: Seq<usize>, len: nat, m: int)
    requires
        0 <= m <= ids.len(),
        first_out_of_range(ids.take(m), len) is Some,
    ensures
        first_out_of_range(ids, len) == first_out_of_range(ids.take(m), len),
    decreases ids.len() - m,
{
    if m == ids.len() {
        assert(ids.take(m) =~= ids);
    } else {
        assert(ids.take(m + 1).drop_last() =~= ids.take(m));
        lemma_out_of_range_prefix(ids, len, m + 1);
    }
}

/// The indices of the entries of `names`, a name list, that contain `query`.
fn matches_in(names: &Vec<&str>, query: &str) -> (r: Vec<usize>)
    ensures
        r@ == name_matches(names@.map_values(|s: &str| s@), query@),
{
    let ghost views = names@.map_values(|s: &str| s@);
    let mut out: Vec<usize> = Vec::new();
    let mut i: usize = 0;
    assert(views.take(0) =~= Seq::<Seq<char>>::empty());
    while i < names.len()
        invariant
            i <= names.len(),
            views == names@.map_values(|s: &str| s@),
            out@ == name_matches(views.take(i as int), query@),
        decreases names.len() - i,
    {
        assert(views.take(i + 1).drop_last() =~= views.take(i as int));
        if contains_str(names[i], query) {
            out.push(i);
        }
        i = i + 1;
    }
    assert(views.take(names.len() as int) =~= views);
    out
}

/// The names of the tasks, as string slices.
fn task_name_strs(task_file: &TaskFile) -> (r: Vec<&str>)
    ensures
        r@.map_values(|s: &str| s@) == task_file.task_names(),
{
    let mut out: Vec<&str> = Vec::new();
    let mut i: usize = 0;
    while i < task_file.tasks.len()
        invariant
            i <= task_file.tasks.len(),
            out@.len() == i,
            forall|k: int| 0 <= k < i ==> #[trigger] out@[k]@ == task_file.tasks@[k].name@,
        decreases task_file.tasks.len() - i,
    {
        out.push(task_file.tasks[i].name.as_str());
        i = i + 1;
    }
    assert(out@.map_values(|s: &str| s@) =~= task_file.task_names());
    out
}

/// The names of the folders, as string slices.
fn folder_name_strs(task_file: &TaskFile) -> (r: Vec<&str>)
    ensures
        r@.map_values(|s: &str| s@) == task_file.folder_names(),
{
    let mut out: Vec<&str> = Vec::new();
    let mut i: usize = 0;
    while i < task_file.folders.len()
        invariant
            i <= task_file.folders.len(),
            out@.len() == i,
            forall|k: int| 0 <= k < i ==> #[trigger] out@[k]@ == task_file.folders@[k].name@,
        decreases task_file.folders.len() - i,
    {
        out.push(task_file.folders[i].name.as_str());
        i = i + 1;
    }
    assert(out@.map_values(|s: &str| s@) =~= task_file.folder_names());
    out
}

/// The indices of the tasks whose name contains `name`, in increasing order.
pub fn task_matches(task_file: &TaskFile, name: &str) -> (r: Vec<usize>)
    ensures
        r@ == name_matches(task_file.task_names(), name@),
{
    let names = task_name_strs(task_file);
    matches_in(&names, name)
}

/// The indices of the folders whose name contains `name`, in increasing
/// order.
pub fn folder_matches(task_file: &TaskFile, name: &str) -> (r: Vec<usize>)
    ensures
        r@ == name_matches(task_file.folder_names(), name@),
{
    let names = folder_name_strs(task_file);
    matches_in(&names, name)
}

/// The one task whose name contains `name`, if exactly one does.
fn find_task_by_name(task_file: &TaskFile, name: &str) -> (r: Option<usize>)
    ensures
        r == unique_match(task_file.task_names(), name@),
{
    let filter = task_matches(task_file, name);
    if filter.len() > 1 {
        return None;
    } else if filter.len() == 0 {
        return None;
    }
    Some(filter[0])
}

/// The one folder whose name contains `name`, if exactly one does.
fn find_folder_by_name(task_file: &TaskFile, name: &str) -> (r: Option<usize>)
    ensures
        r == unique_match(task_file.folder_names(), name@),
{
    let filter = folder_matches(task_file, name);
    if filter.len() > 1 {
        return None;
    } else if filter.len() == 0 {
        return None;
    }
    Some(filter[0])
}

/// Every index below `len`, in increasing order.
fn every_index(len: usize) -> (r: Vec<usize>)
    ensures
        r@ == all_indices(len as nat),
{
    let mut out: Vec<usize> = Vec::new();
    let mut i: usize = 0;
    while i < len
        invariant
            i <= len,
            out@ == all_indices(i as nat),
        decreases len - i,
    {
        out.push(i);
        i = i + 1;
        assert(out@ =~= all_indices(i as nat));
    }
    out
}

/// The entries that the name parts of `argid` pick out of `names`, or the
/// error for the first part that picks out no single entry.
fn resolve_all_names(names: &Vec<&str>, argid: &ArgTaskID) -> (r: Result<Vec<usize>, FindError>)
    ensures
        match r {
            Ok(v) => resolve_names(names@.map_values(|s: &str| s@), argid.name_views()) == Ok::<Seq<usize>, int>(v@),
            Err(e) => exists|k: int| resolve_names(names@.map_values(|s: &str| s@), argid.name_views()) == Err::<Seq<usize>, int>(k)
                && 0 <= k < argid.name@.len() && e@ == Missing::Name(argid.name_views()[k]),
        },
{
    let ghost views = names@.map_values(|s: &str| s@);
    let ghost queries = argid.name_views();
    let mut found: Vec<usize> = Vec::new();
    let mut k: usize = 0;
    assert(queries.take(0) =~= Seq::<Seq<char>>::empty());
    while k < argid.name.len()
        invariant
            k <= argid.name.len(),
            views == names@.map_values(|s: &str| s@),
            queries == argid.name_views(),
            resolve_names(views, queries.take(k as int)) == Ok::<Seq<usize>, int>(found@),
        decreases argid.name.len() - k,
    {
        assert(queries.take(k + 1).drop_last() =~= queries.take(k as int));
        let matches = matches_in(names, argid.name[k].as_str());
        if matches.len() == 1 {
            found.push(matches[0]);
        } else {
            proof {
                lemma_resolve_prefix_err(views, queries, k + 1);
            }
            return Err(FindError::from(FindType::Name(argid.name[k].clone())));
        }
        k = k + 1;
    }
    assert(queries.take(argid.name.len() as int) =~= queries);
    Ok(found)
}

/// The tasks a selection picks: every task when `all` is set; otherwise the
/// task that each name part picks, then each index. Fails on the first name
/// part that picks no single task, then on the first index past the end.
pub fn find_tasks_by_argid(task_file: &TaskFile, argid: &ArgTaskID) -> (r: Result<Vec<usize>, FindError>)
    ensures
        match r {
            Ok(v) => select_tasks(task_file.task_names(), *argid) == Ok::<Seq<usize>, Missing>(v@),
            Err(e) => select_tasks(task_file.task_names(), *argid) == Err::<Seq<usize>, Missing>(e@),
        },
{
    if argid.all {
        return Ok(every_index(task_file.tasks.len()));
    }
    let names = task_name_strs(task_file);
    let mut found_tasks = match resolve_all_names(&names, argid) {
        Ok(v) => v,
        Err(e) => {
            return Err(e);
        },
    };
    let ghost by_name = found_tasks@;
    let len = task_file.tasks.len();
    let ghost ids = argid.id@;
    let mut j: usize = 0;
    assert(ids.take(0) =~= Seq::<usize>::empty());
    while j < argid.id.len()
        invariant
            j <= argid.id.len(),
            ids == argid.id@,
            len == task_file.tasks@.len(),
            first_out_of_range(ids.take(j as int), len as nat) is None,
            resolve_names(task_file.task_names(), argid.name_views()) == Ok::<Seq<usize>, int>(by_name),
            !argid.all,
            found_tasks@ == by_name + ids.take(j as int),
        decreases argid.id.len() - j,
    {
        assert(ids.take(j + 1).drop_last() =~= ids.take(j as int));
        let id = argid.id[j];
        if id < len {
            found_tasks.push(id);
            assert(found_tasks@ =~= by_name + ids.take(j + 1));
        } else {
            proof {
                lemma_out_of_range_prefix(ids, len as nat, j + 1);
            }
            return Err(FindError::from(FindType::Id(id)));
        }
        j = j + 1;
    }
    assert(ids.take(argid.id.len() as int) =~= ids);
    Ok(found_tasks)
}

/// The folders a selection picks: every folder when `all` is set; otherwise
/// the folder that each name part picks, then each index that is in range.
/// Fails on the first name part that picks no single folder.
pub fn find_folders_by_argid(task_file: &TaskFile, argid: &ArgTaskID) -> (r: Result<Vec<usize>, FindError>)
    ensures
        match r {
            Ok(v) => select_folders(task_file.folder_names(), *argid) == Ok::<Seq<usize>, Missing>(v@),
            Err(e) => select_folders(task_file.folder_names(), *argid) == Err::<Seq<usize>, Missing>(e@),
        },
{
    if argid.all {
        return Ok(every_index(task_file.folders.len()));
    }
    let names = folder_name_strs(task_file);
    let mut found_folders = match resolve_all_names(&names, argid) {
        Ok(v) => v,
        Err(e) => {
            return Err(e);
        },
    };
    let ghost by_name = found_folders@;
    let len = task_file.folders.len();
    let ghost ids = argid.id@;
    let mut j: usize = 0;
    assert(ids.take(0).filter(|i: usize| i < len) =~= Seq::<usize>::empty());
    while j < argid.id.len()
        invariant
            j <= argid.id.len(),
            ids == argid.id@,
            len == task_file.folders@.len(),
            found_folders@ == by_name + in_range(ids.take(j as int), len as nat),
        decreases argid.id.len() - j,
    {
        assert(ids.take(j + 1).drop_last() =~= ids.take(j as int));
        reveal_with_fuel(Seq::<_>::filter, 1);
        let id = argid.id[j];
        if id < len {
            found_folders.push(id);
        }
        assert(found_folders@ =~= by_name + in_range(ids.take(j + 1), len as nat));
        j = j + 1;
    }
    assert(ids.take(argid.id.len() as int) =~= ids);
    Ok(found_folders)
}

/// The matches are exactly the entries whose name contains the query, in
/// increasing order.
pub proof fn lemma_name_matches(names: Seq<Seq<char>>, query: Seq<char>)
    requires
        names.len() <= usize::MAX,
    ensures
        forall|k: int|
            0 <= k < name_matches(names, query).len() ==> {
                &&& #[trigger] name_matches(names, query)[k] < names.len()
                &&& occurs_in(query, names[name_matches(names, query)[k] as int])
            },
        forall|a: int, b: int|
            0 <= a < b < name_matches(names, query).len() ==> #[trigger] name_matches(names, query)[a]
                < #[trigger] name_matches(names, query)[b],
        forall|i: int|
            0 <= i < names.len() && occurs_in(query, #[trigger] names[i]) ==> name_matches(
                names,
                query,
            ).contains(i as usize),
    decreases names.len(),
{
    if names.len() > 0 {
        let earlier = names.drop_last();
        lemma_name_matches(earlier, query);
        let m = name_matches(names, query);
        let e = name_matches(earlier, query);
        assert forall|i: int| 0 <= i < names.len() && occurs_in(query, #[trigger] names[i]) implies m.contains(i as usize) by {
            if i < names.len() - 1 {
                assert(earlier[i] == names[i]);
                assert(e.contains(i as usize));
                let j = choose|j: int| 0 <= j < e.len() && e[j] == i as usize;
                assert(m[j] == i as usize);
            } else {
                assert(m[m.len() - 1] == i as usize);
            }
        }
    }
}

/// A name part picks out an entry only when that entry is the one entry
/// whose name contains it.
pub proof fn lemma_unique_match(names: Seq<Seq<char>>, query: Seq<char>)
    requires
        names.len() <= usize::MAX,
    ensures
        unique_match(names, query) matches Some(i) ==> {
            &&& i < names.len()
            &&& occurs_in(query, names[i as int])
            &&& forall|j: int| 0 <= j < names.len() && j != i ==> !occurs_in(query, #[trigger] names[j])
        },
        unique_match(names, query) is None ==> !(exists|i: int|
            0 <= i < names.len() && occurs_in(query, #[trigger] names[i]) && forall|j: int|
                0 <= j < names.len() && j != i ==> !occurs_in(query, #[trigger] names[j])),
{
    lemma_name_matches(names, query);
    let m = name_matches(names, query);
    if m.len() == 1 {
        assert forall|j: int| 0 <= j < names.len() && j != m[0] implies !occurs_in(query, #[trigger] names[j]) by {
            if occurs_in(query, names[j]) {
                assert(m.contains(j as usize));
            }
        }
    } else {
        if exists|i: int|
            0 <= i < names.len() && occurs_in(query, #[trigger] names[i]) && forall|j: int|
                0 <= j < names.len() && j != i ==> !occurs_in(query, #[trigger] names[j]) {
            let i = choose|i: int|
                0 <= i < names.len() && occurs_in(query, #[trigger] names[i]) && forall|j: int|
                    0 <= j < names.len() && j != i ==> !occurs_in(query, #[trigger] names[j]);
            assert(m.contains(i as usize));
            if m.len() > 1 {
                let a = if m[0] == i as usize { m[1] } else { m[0] };
                assert(occurs_in(query, names[a as int]));
                assert(a != i);
            }
        }
    }
}

/// The entries that the name parts resolve to all exist.
proof fn lemma_resolved_exist(names: Seq<Seq<char>>, queries: Seq<Seq<char>>)
    requires
        names.len() <= usize::MAX,
    ensures
        resolve_names(names, queries) matches Ok(found) ==> found.len() == queries.len() && forall|k: int|
            0 <= k < found.len() ==> #[trigger] found[k] < names.len(),
        resolve_names(names, queries) matches Err(k) ==> 0 <= k < queries.len(),
    decreases queries.len(),
{
    if queries.len() > 0 {
        lemma_resolved_exist(names, queries.drop_last());
        lemma_unique_match(names, queries.last());
    }
}

/// Every index that an in-range check lets through is in range.
proof fn lemma_in_range(ids: Seq<usize>, len: nat)
    ensures
        forall|k: int| 0 <= k < in_range(ids, len).len() ==> #[trigger] in_range(ids, len)[k] < len,
{
    broadcast use vstd::seq_lib::group_filter_ensures;
    assert forall|k: int| 0 <= k < in_range(ids, len).len() implies #[trigger] in_range(ids, len)[k] < len by {
        assert(in_range(ids, len).contains(in_range(ids, len)[k]));
    }
}

/// The first index out of range, if any, is a position in the list; when
/// there is none, every index is in range.
proof fn lemma_first_out_of_range(ids: Seq<usize>, len: nat)
    ensures
        first_out_of_range(ids, len) matches Some(k) ==> 0 <= k < ids.len(),
        first_out_of_range(ids, len) is None ==> forall|k: int| 0 <= k < ids.len() ==> #[trigger] ids[k] < len,
    decreases ids.len(),
{
    if ids.len() > 0 {
        lemma_first_out_of_range(ids.drop_last(), len);
        if first_out_of_range(ids, len) is None {
            assert forall|k: int| 0 <= k < ids.len() implies #[trigger] ids[k] < len by {
                if k < ids.len() - 1 {
                    assert(ids.drop_last()[k] == ids[k]);
                }
            }
        }
    }
}

/// Every task a selection picks exists: each index is below the number of
/// tasks.
pub proof fn lemma_selected_tasks_exist(names: Seq<Seq<char>>, argid: ArgTaskID)
    requires
        names.len() <= usize::MAX,
    ensures
        forall|ids: Seq<usize>, k: int|
            select_tasks(names, argid) == Ok::<Seq<usize>, Missing>(ids) && 0 <= k < ids.len() ==> #[trigger] ids[k] < names.len(),
{
    lemma_resolved_exist(names, argid.name_views());
    lemma_first_out_of_range(argid.id@, names.len());
    if let Ok(ids) = select_tasks(names, argid) {
        if !argid.all {
            let found = resolve_names(names, argid.name_views())->Ok_0;
            assert forall|k: int| 0 <= k < ids.len() implies #[trigger] ids[k] < names.len() by {
                if k < found.len() {
                    assert(ids[k] == found[k]);
                } else {
                    assert(ids[k] == argid.id@[k - found.len()]);
                }
            }
        }
    }
}

/// Every folder a selection picks exists: each index is below the number of
/// folders.
pub proof fn lemma_selected_folders_exist(names: Seq<Seq<char>>, argid: ArgTaskID)
    requires
        names.len() <= usize::MAX,
    ensures
        forall|ids: Seq<usize>, k: int|
            select_folders(names, argid) == Ok::<Seq<usize>, Missing>(ids) && 0 <= k < ids.len() ==> #[trigger] ids[k] < names.len(),
{
    lemma_resolved_exist(names, argid.name_views());
    lemma_in_range(argid.id@, names.len());
    if let Ok(ids) = select_folders(names, argid) {
        if !argid.all {
            let found = resolve_names(names, argid.name_views())->Ok_0;
            let rest = in_range(argid.id@, names.len());
            assert forall|k: int| 0 <= k < ids.len() implies #[trigger] ids[k] < names.len() by {
                if k < found.len() {
                    assert(ids[k] == found[k]);
                } else {
                    assert(ids[k] == rest[k - found.len()]);
                }
            }
        }
    }
}

} // verus!
