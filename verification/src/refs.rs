//! A folder's references to tasks, and how they follow the task list when a
//! task is removed from it.
use vstd::prelude::*;
use vstd::relations::{sorted_by, total_ordering};
use vstd::seq_lib::{group_to_multiset_ensures, lemma_sorted_unique};

verus! {

broadcast use group_to_multiset_ensures;

/// The usual order on indices.
pub open spec fn index_leq() -> spec_fn(usize, usize) -> bool {
    |a: usize, b: usize| a <= b
}

/// The references in ascending order.
pub open spec fn ascending(refs: Seq<usize>) -> Seq<usize> {
    refs.sort_by(index_leq())
}

/// The references with the first occurrence of `x` taken out, if there is
/// one.
pub open spec fn without_one(refs: Seq<usize>, x: usize) -> Seq<usize> {
    match refs.index_of_first(x) {
        Some(i) => refs.remove(i),
        None => refs,
    }
}

/// Where an index lands once the entry at `removed` is taken out of the
/// list: one lower if it was above it.
pub open spec fn lowered(x: usize, removed: usize) -> usize {
    if x > removed {
        (x - 1) as usize
    } else {
        x
    }
}

/// Every reference above `removed` lowered by one.
pub open spec fn lowered_above(refs: Seq<usize>, removed: usize) -> Seq<usize> {
    refs.map_values(|x: usize| lowered(x, removed))
}

/// A folder's references after the task at `removed` leaves the task list:
/// put in ascending order, one reference to `removed` taken out, and those
/// above it lowered by one.
pub open spec fn refs_after_removal(refs: Seq<usize>, removed: usize) -> Seq<usize> {
    lowered_above(without_one(ascending(refs), removed), removed)
}

/// The references name tasks of a list of length `len`, each at most once.
pub open spec fn refs_valid(refs: Seq<usize>, len: nat) -> bool {
    &&& forall|i: int| 0 <= i < refs.len() ==> #[trigger] refs[i] < len
    &&& refs.no_duplicates()
}

proof fn lemma_index_leq_total()
    ensures
        total_ordering(index_leq()),
{
}

/// The references in ascending order.
pub fn sort_ascending(refs: &Vec<usize>) -> (r: Vec<usize>)
    ensures
        r@ == ascending(refs@),
{
    let mut out: Vec<usize> = Vec::new();
    let mut i: usize = 0;
    assert(refs@.take(0) =~= Seq::<usize>::empty());
    while i < refs.len()
        invariant
            i <= refs.len(),
            sorted_by(out@, index_leq()),
            out@.to_multiset() == refs@.take(i as int).to_multiset(),
        decreases refs.len() - i,
    {
        let x = refs[i];
        let mut p: usize = 0;
        while p < out.len() && out[p] <= x
            invariant
                p <= out.len(),
                forall|q: int| 0 <= q < p ==> out@[q] <= x,
            decreases out.len() - p,
        {
            p = p + 1;
        }
        let ghost before = out@;
        out.insert(p, x);
        assert(sorted_by(out@, index_leq())) by {
            assert forall|a: int, b: int| 0 <= a < b < out@.len() implies #[trigger] (index_leq())(
                out@[a],
                out@[b],
            ) by {
                if a < p && b < p {
                    assert(index_leq()(before[a], before[b]));
                } else if a < p && b == p {
                } else if a < p {
                    assert(index_leq()(before[a], before[b - 1]));
                } else if a == p {
                    if p < before.len() {
                        assert(index_leq()(before[p as int], before[b - 1]));
                    }
                } else {
                    assert(index_leq()(before[a - 1], before[b - 1]));
                }
            }
        }
        assert(refs@.take(i + 1) =~= refs@.take(i as int).push(x));
        i = i + 1;
    }
    proof {
        assert(refs@.take(refs.len() as int) =~= refs@);
        lemma_index_leq_total();
        refs@.lemma_sort_by_ensures(index_leq());
        lemma_sorted_unique(out@, ascending(refs@), index_leq());
    }
    out
}

/// A folder's references after the task at `removed` leaves the task list.
pub fn adjust_refs(refs: &Vec<usize>, removed: usize) -> (r: Vec<usize>)
    ensures
        r@ == refs_after_removal(refs@, removed),
{
    let mut sorted = sort_ascending(refs);
    let mut k: usize = 0;
    while k < sorted.len() && sorted[k] != removed
        invariant
            k <= sorted.len(),
            forall|j: int| 0 <= j < k ==> sorted@[j] != removed,
        decreases sorted.len() - k,
    {
        k = k + 1;
    }
    let ghost s = sorted@;
    proof {
        s.index_of_first_ensures(removed);
    }
    if k < sorted.len() {
        sorted.remove(k);
        proof {
            assert(s.contains(removed));
            let f = s.index_of_first(removed).unwrap();
            assert(f == k);
        }
    } else {
        assert(!s.contains(removed));
    }
    let ghost t = sorted@;
    assert(t == without_one(ascending(refs@), removed));
    let mut out: Vec<usize> = Vec::new();
    let mut j: usize = 0;
    while j < sorted.len()
        invariant
            j <= sorted.len(),
            t == sorted@,
            out@ == lowered_above(t.take(j as int), removed),
        decreases sorted.len() - j,
    {
        let x = sorted[j];
        if x > removed {
            out.push(x - 1);
        } else {
            out.push(x);
        }
        assert(out@ =~= lowered_above(t.take(j + 1), removed));
        j = j + 1;
    }
    assert(t.take(t.len() as int) =~= t);
    out
}

/// The ascending order of valid references is valid too, and holds the
/// same references.
proof fn lemma_ascending_valid(refs: Seq<usize>, len: nat)
    requires
        refs_valid(refs, len),
    ensures
        refs_valid(ascending(refs), len),
        sorted_by(ascending(refs), index_leq()),
        forall|x: usize| #[trigger] ascending(refs).contains(x) <==> refs.contains(x),
{
    let a = ascending(refs);
    lemma_index_leq_total();
    refs.lemma_sort_by_ensures(index_leq());
    refs.lemma_multiset_has_no_duplicates();
    a.lemma_multiset_has_no_duplicates_conv();
    assert forall|x: usize| #[trigger] a.contains(x) <==> refs.contains(x) by {
        refs.to_multiset_ensures();
        a.to_multiset_ensures();
        assert(refs.to_multiset().count(x) == a.to_multiset().count(x));
    }
    assert forall|i: int| 0 <= i < a.len() implies #[trigger] a[i] < len by {
        assert(a.contains(a[i]));
        assert(refs.contains(a[i]));
    }
}

/// Removing the task at `removed` from a task list keeps a folder's valid
/// references valid for the shorter list, and each reference that remains
/// still names the same task: a reference `o` to any other task becomes
/// `lowered(o, removed)`, which names that task in the new list, and every
/// new reference comes about this way.
pub proof fn lemma_removal_keeps_references<T>(tasks: Seq<T>, refs: Seq<usize>, removed: usize)
    requires
        removed < tasks.len(),
        refs_valid(refs, tasks.len()),
    ensures
        refs_valid(refs_after_removal(refs, removed), (tasks.len() - 1) as nat),
        forall|o: usize|
            refs.contains(o) && o != removed ==> #[trigger] refs_after_removal(refs, removed).contains(
                lowered(o, removed),
            ) && tasks.remove(removed as int)[lowered(o, removed) as int] == tasks[o as int],
        forall|x: usize|
            #[trigger] refs_after_removal(refs, removed).contains(x) ==> exists|o: usize|
                refs.contains(o) && o != removed && x == lowered(o, removed),
{
    let a = ascending(refs);
    lemma_ascending_valid(refs, tasks.len());
    let w = without_one(a, removed);
    a.index_of_first_ensures(removed);
    assert(refs_valid(w, tasks.len()) && (forall|x: usize|
        #[trigger] w.contains(x) <==> (a.contains(x) && x != removed))) by {
        match a.index_of_first(removed) {
            Some(f) => {
                assert forall|x: usize| #[trigger] w.contains(x) <==> (a.contains(x) && x != removed) by {
                    if w.contains(x) {
                        let i = choose|i: int| 0 <= i < w.len() && w[i] == x;
                        if i < f {
                            assert(a[i] == x);
                        } else {
                            assert(a[i + 1] == x);
                        }
                    }
                    if a.contains(x) && x != removed {
                        let i = choose|i: int| 0 <= i < a.len() && a[i] == x;
                        if i < f {
                            assert(w[i] == x);
                        } else {
                            assert(i != f);
                            assert(w[i - 1] == x);
                        }
                    }
                }
            },
            None => {},
        }
    }
    let n = refs_after_removal(refs, removed);
    assert(n == lowered_above(w, removed));
    assert forall|i: int| 0 <= i < n.len() implies #[trigger] n[i] < tasks.len() - 1 by {
        assert(w.contains(w[i]));
    }
    assert(n.no_duplicates()) by {
        assert forall|i: int, j: int| 0 <= i < n.len() && 0 <= j < n.len() && i != j implies n[i] != n[j] by {
            assert(w.contains(w[i]));
            assert(w.contains(w[j]));
        }
    }
    assert forall|o: usize| refs.contains(o) && o != removed implies #[trigger] n.contains(
        lowered(o, removed),
    ) && tasks.remove(removed as int)[lowered(o, removed) as int] == tasks[o as int] by {
        assert(a.contains(o));
        assert(w.contains(o));
        let i = choose|i: int| 0 <= i < w.len() && w[i] == o;
        assert(n[i] == lowered(o, removed));
    }
    assert forall|x: usize| #[trigger] n.contains(x) implies exists|o: usize|
        refs.contains(o) && o != removed && x == lowered(o, removed) by {
        let i = choose|i: int| 0 <= i < n.len() && n[i] == x;
        assert(w.contains(w[i]));
        assert(a.contains(w[i]));
    }
}

} // verus!
