//! Removing several entries of a list, one after the other, by indices that
//! were taken before any of them was removed.
//!
//! Each index is lowered by the number of earlier removal positions below
//! it, and the entry at the lowered position is removed.
use vstd::prelude::*;
use crate::refs::refs_after_removal;

verus! {

/// How many entries of `s` are below `x`.
pub open spec fn count_below(s: Seq<usize>, x: usize) -> nat
    decreases s.len(),
{
    if s.len() == 0 {
        0
    } else {
        count_below(s.drop_last(), x) + if s.last() < x {
            1nat
        } else {
            0nat
        }
    }
}

/// The positions at which the entries are removed, one per index: each
/// index lowered by the number of earlier positions below it.
pub open spec fn removal_positions(ids: Seq<usize>) -> Seq<usize>
    decreases ids.len(),
{
    if ids.len() == 0 {
        Seq::empty()
    } else {
        let earlier = removal_positions(ids.drop_last());
        earlier.push((ids.last() - count_below(earlier, ids.last())) as usize)
    }
}

/// Every removal, in turn, lands inside the list that is left at that
/// point, starting from a list of length `len`.
pub open spec fn removals_fit(ids: Seq<usize>, len: nat) -> bool
    decreases ids.len(),
{
    if ids.len() == 0 {
        true
    } else {
        let earlier = removal_positions(ids.drop_last());
        &&& removals_fit(ids.drop_last(), len)
        &&& count_below(earlier, ids.last()) <= ids.last()
        &&& ids.last() - count_below(earlier, ids.last()) < len - (ids.len() - 1)
    }
}

/// What is left of `s` once the entries at `positions` are removed, in turn.
pub open spec fn removed_all<A>(s: Seq<A>, positions: Seq<usize>) -> Seq<A>
    decreases positions.len(),
{
    if positions.len() == 0 {
        s
    } else {
        removed_all(s, positions.drop_last()).remove(positions.last() as int)
    }
}

/// The entries that the removals at `positions` take out, in turn.
pub open spec fn removed_items<A>(s: Seq<A>, positions: Seq<usize>) -> Seq<A>
    decreases positions.len(),
{
    if positions.len() == 0 {
        Seq::empty()
    } else {
        removed_items(s, positions.drop_last()).push(
            removed_all(s, positions.drop_last())[positions.last() as int],
        )
    }
}

/// A folder's references once the tasks at `positions` are removed, in turn.
pub open spec fn refs_after_removals(refs: Seq<usize>, positions: Seq<usize>) -> Seq<usize>
    decreases positions.len(),
{
    if positions.len() == 0 {
        refs
    } else {
        refs_after_removal(refs_after_removals(refs, positions.drop_last()), positions.last())
    }
}

/// Removals that fit fit for every prefix of the indices.
pub proof fn lemma_removals_fit_prefix(ids: Seq<usize>, len: nat, m: int)
    requires
        0 <= m <= ids.len(),
        removals_fit(ids, len),
    ensures
        removals_fit(ids.take(m), len),
    decreases ids.len() - m,
{
    if m == ids.len() {
        assert(ids.take(m) =~= ids);
    } else {
        lemma_removals_fit_prefix(ids, len, m + 1);
        assert(ids.take(m + 1).drop_last() =~= ids.take(m));
    }
}

/// How many entries of `s` are below `x`.
pub fn count_below_exec(s: &Vec<usize>, x: usize) -> (r: usize)
    ensures
        r == count_below(s@, x),
{
    let mut n: usize = 0;
    let mut j: usize = 0;
    assert(s@.take(0) =~= Seq::<usize>::empty());
    while j < s.len()
        invariant
            j <= s.len(),
            n == count_below(s@.take(j as int), x),
            n <= j,
        decreases s.len() - j,
    {
        assert(s@.take(j + 1).drop_last() =~= s@.take(j as int));
        if s[j] < x {
            n = n + 1;
        }
        j = j + 1;
    }
    assert(s@.take(s.len() as int) =~= s@);
    n
}

/// The position at which the entry that `id` named is removed, given the
/// positions of the earlier removals.
pub fn removal_position(earlier: &Vec<usize>, id: usize) -> (r: usize)
    requires
        count_below(earlier@, id) <= id,
    ensures
        r == id - count_below(earlier@, id),
{
    let down = count_below_exec(earlier, id);
    id - down
}

/// Whether removals by `ids`, in turn, all land inside a list of length
/// `len`.
pub fn removals_fit_check(ids: &Vec<usize>, len: usize) -> (r: bool)
    ensures
        r == removals_fit(ids@, len as nat),
{
    let mut positions: Vec<usize> = Vec::new();
    let mut k: usize = 0;
    assert(ids@.take(0) =~= Seq::<usize>::empty());
    while k < ids.len()
        invariant
            k <= ids.len(),
            positions@ == removal_positions(ids@.take(k as int)),
            removals_fit(ids@.take(k as int), len as nat),
        decreases ids.len() - k,
    {
        assert(ids@.take(k + 1).drop_last() =~= ids@.take(k as int));
        let id = ids[k];
        let c = count_below_exec(&positions, id);
        if c > id || k >= len || id - c >= len - k {
            proof {
                if removals_fit(ids@, len as nat) {
                    lemma_removals_fit_prefix(ids@, len as nat, k + 1);
                }
            }
            return false;
        }
        positions.push(id - c);
        k = k + 1;
    }
    assert(ids@.take(ids.len() as int) =~= ids@);
    true
}

/// The indices are in strictly increasing order.
pub open spec fn strictly_increasing(ids: Seq<usize>) -> bool {
    forall|a: int, b: int| 0 <= a < b < ids.len() ==> #[trigger] ids[a] < #[trigger] ids[b]
}

/// When every entry of `s` is below `x`, all of them count.
proof fn lemma_count_all_below(s: Seq<usize>, x: usize)
    requires
        forall|k: int| 0 <= k < s.len() ==> #[trigger] s[k] < x,
    ensures
        count_below(s, x) == s.len(),
    decreases s.len(),
{
    if s.len() > 0 {
        lemma_count_all_below(s.drop_last(), x);
    }
}

/// Increasing indices grow by at least one per step.
proof fn lemma_increasing_gap(ids: Seq<usize>, a: int, b: int)
    requires
        strictly_increasing(ids),
        0 <= a <= b < ids.len(),
    ensures
        ids[b] >= ids[a] + (b - a),
    decreases b - a,
{
    if a < b {
        lemma_increasing_gap(ids, a, b - 1);
        assert(ids[b - 1] < ids[b]);
    }
}

/// In increasing indices, those below `x` come first.
proof fn lemma_count_increasing(ids: Seq<usize>, x: usize)
    requires
        strictly_increasing(ids),
    ensures
        count_below(ids, x) <= ids.len(),
        forall|j: int| 0 <= j < count_below(ids, x) ==> #[trigger] ids[j] < x,
        forall|j: int| count_below(ids, x) <= j < ids.len() ==> #[trigger] ids[j] >= x,
    decreases ids.len(),
{
    if ids.len() > 0 {
        let e = ids.drop_last();
        assert(strictly_increasing(e));
        lemma_count_increasing(e, x);
        let c = count_below(e, x);
        if ids.last() < x {
            assert forall|j: int| 0 <= j < e.len() implies #[trigger] e[j] < x by {
                assert(ids[j] < ids[ids.len() - 1]);
            }
            lemma_count_all_below(e, x);
            assert forall|j: int| 0 <= j < count_below(ids, x) implies #[trigger] ids[j] < x by {
                if j < ids.len() - 1 {
                    assert(e[j] == ids[j]);
                }
            }
        } else {
            assert forall|j: int| 0 <= j < count_below(ids, x) implies #[trigger] ids[j] < x by {
                assert(e[j] == ids[j]);
            }
            assert forall|j: int| count_below(ids, x) <= j < ids.len() implies #[trigger] ids[j] >= x by {
                if j < ids.len() - 1 {
                    assert(e[j] == ids[j]);
                }
            }
        }
    }
}

/// Removing tasks by strictly increasing indices removes exactly the
/// entries those indices name: the removals all fit, each index is lowered
/// by the number of removals before it, the removed entries are those at
/// the indices in order, and every other entry stays, moved down by the
/// number of removed entries before it.
#[verifier::spinoff_prover]
#[verifier::rlimit(50)]
pub proof fn lemma_increasing_removals<A>(s: Seq<A>, ids: Seq<usize>)
    requires
        strictly_increasing(ids),
        forall|k: int| 0 <= k < ids.len() ==> #[trigger] ids[k] < s.len(),
    ensures
        removals_fit(ids, s.len()),
        removal_positions(ids) == ids.map(|k: int, i: usize| (i - k) as usize),
        removed_items(s, removal_positions(ids)) == ids.map_values(|i: usize| s[i as int]),
        removed_all(s, removal_positions(ids)).len() == s.len() - ids.len(),
        forall|i: usize|
            i < s.len() && !ids.contains(i) ==> #[trigger] removed_all(s, removal_positions(ids))[i
                - count_below(ids, i)] == s[i as int],
    decreases ids.len(),
{
    let n = ids.len();
    if n == 0 {
        assert(removal_positions(ids) =~= ids.map(|k: int, i: usize| (i - k) as usize));
        assert(removed_items(s, removal_positions(ids)) =~= ids.map_values(|i: usize| s[i as int]));
        assert forall|i: usize| i < s.len() && !ids.contains(i) implies #[trigger] removed_all(
            s,
            removal_positions(ids),
        )[i - count_below(ids, i)] == s[i as int] by {}
    } else {
        let e = ids.drop_last();
        let last = ids[n - 1];
        assert(strictly_increasing(e));
        lemma_increasing_removals(s, e);
        let pe = removal_positions(e);
        let re = removed_all(s, pe);
        lemma_increasing_gap(ids, 0, n - 1);
        assert forall|k: int| 0 <= k < pe.len() implies #[trigger] pe[k] < last by {
            lemma_increasing_gap(e, 0, k);
            assert(pe[k] == (e[k] - k) as usize);
            assert(ids[k] < ids[n - 1]);
        }
        lemma_count_all_below(pe, last);
        let p = (last - (n - 1)) as usize;
        assert(removal_positions(ids) == pe.push(p));
        assert(removal_positions(ids) =~= ids.map(|k: int, i: usize| (i - k) as usize));
        assert(!e.contains(last)) by {
            if e.contains(last) {
                let j = choose|j: int| 0 <= j < e.len() && e[j] == last;
                assert(ids[j] < ids[n - 1]);
            }
        }
        assert forall|k: int| 0 <= k < e.len() implies #[trigger] e[k] < last by {
            assert(ids[k] < ids[n - 1]);
        }
        lemma_count_all_below(e, last);
        assert(re[last - count_below(e, last)] == s[last as int]);
        assert(pe.push(p).drop_last() =~= pe);
        assert(removed_items(s, removal_positions(ids)) =~= ids.map_values(|i: usize| s[i as int]));
        let r = removed_all(s, removal_positions(ids));
        assert(r == re.remove(p as int));
        assert forall|i: usize| i < s.len() && !ids.contains(i) implies #[trigger] r[i
            - count_below(ids, i)] == s[i as int] by {
            let x = i;
            assert(!e.contains(x)) by {
                if e.contains(x) {
                    let j = choose|j: int| 0 <= j < e.len() && e[j] == x;
                    assert(ids[j] == x);
                }
            }
            assert(ids[n - 1] != x);
            lemma_count_increasing(ids, x);
            lemma_count_increasing(e, x);
            let c = count_below(e, x) as int;
            if last < x {
                assert(count_below(ids, x) == c + 1);
                assert(c == n - 1) by {
                    if c < n - 1 {
                        assert(e[c] >= x);
                        assert(ids[c] < ids[n - 1]);
                    }
                }
                assert(re[i - c] == s[i as int]);
            } else {
                assert(count_below(ids, x) == c);
                assert(c <= n - 1);
                assert(ids[c] >= x);
                assert(ids[c] != x) by {
                    assert(ids.contains(ids[c]));
                }
                lemma_increasing_gap(ids, c, n - 1);
                if c > 0 {
                    assert(ids[c - 1] < x);
                    lemma_increasing_gap(ids, 0, c - 1);
                }
                assert(ids[c] > x);
                assert(last >= ids[c] + (n - 1 - c));
                assert(p == last - (n - 1));
                assert(i - c < p);
                assert(re[i - c] == s[i as int]);
            }
        }
    }
}

} // verus!
