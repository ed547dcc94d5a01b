//! Selection of the entries of a snapshot: the tree of descendants of a
//! process, and the entries whose command matches a pattern.

use vstd::prelude::*;
use vstd::set_lib::{lemma_len_subset, FiniteRange};
use crate::psentry::PsEntry;

verus! {

/// Entry `k` is a child of entry `j`: its parent pid is `j`'s pid.
pub open spec fn is_child(all: Seq<PsEntry>, j: int, k: int) -> bool {
    all[k].ppid == all[j].pid
}

/// `path` is a non-empty sequence of entry indices in which each is a child of
/// the one before.
pub open spec fn is_chain(all: Seq<PsEntry>, path: Seq<int>) -> bool {
    &&& path.len() > 0
    &&& forall|i: int| 0 <= i < path.len() ==> 0 <= #[trigger] path[i] < all.len()
    &&& forall|i: int| 0 <= i < path.len() - 1 ==> is_child(all, #[trigger] path[i], path[i + 1])
}

/// Entry `k` is entry `r` or one of its descendants.
pub open spec fn descends(all: Seq<PsEntry>, r: int, k: int) -> bool {
    exists|path: Seq<int>| is_chain(all, path) && path[0] == r && path.last() == k
}

/// Entry `r` is the first entry whose pid is `parent`.
pub open spec fn is_root(all: Seq<PsEntry>, parent: usize, r: int) -> bool {
    &&& 0 <= r < all.len()
    &&& all[r].pid == parent
    &&& forall|j: int| 0 <= j < r ==> all[j].pid != parent
}

/// Entry `k` belongs to the tree rooted at the first entry whose pid is `parent`.
pub open spec fn in_tree(all: Seq<PsEntry>, parent: usize, k: int) -> bool {
    exists|r: int| is_root(all, parent, r) && descends(all, r, k)
}

/// `idx` lists, once each, the indices of the entries of the tree rooted at `parent`.
pub open spec fn lists_tree(all: Seq<PsEntry>, parent: usize, idx: Seq<usize>) -> bool {
    &&& idx.no_duplicates()
    &&& forall|i: int| 0 <= i < idx.len() ==> #[trigger] idx[i] < all.len()
    &&& forall|k: int| 0 <= k < all.len() ==> (idx.contains(k as usize) <==> in_tree(all, parent, k))
}

/// `out` holds the entries of the tree rooted at `parent`, once each, in some order.
pub open spec fn is_tree_listing(all: Seq<PsEntry>, parent: usize, out: Seq<PsEntry>) -> bool {
    exists|idx: Seq<usize>|
        lists_tree(all, parent, idx) && out == idx.map_values(|k: usize| all[k as int])
}

proof fn lemma_distinct_below(s: Seq<usize>, n: usize)
    requires
        s.no_duplicates(),
        forall|i: int| 0 <= i < s.len() ==> #[trigger] s[i] < n,
    ensures
        s.len() <= n,
{
    s.unique_seq_to_set();
    let full = <usize as FiniteRange>::range_set(0, n);
    <usize as FiniteRange>::range_properties(0, n);
    assert(s.to_set().subset_of(full));
    lemma_len_subset(s.to_set(), full);
}

/// Each entry of a chain that starts in `res` is in `res`, when `res` holds the
/// children of each entry it holds.
proof fn lemma_closed_holds_chain(all: Seq<PsEntry>, res: Seq<usize>, path: Seq<int>, i: int)
    requires
        all.len() <= usize::MAX,
        is_chain(all, path),
        0 <= i < path.len(),
        res.contains(path[0] as usize),
        forall|x: int, m: int|
            0 <= x < res.len() && 0 <= m < all.len() && is_child(all, res[x] as int, m)
                ==> res.contains(m as usize),
    ensures
        res.contains(path[i] as usize),
    decreases i,
{
    if i > 0 {
        lemma_closed_holds_chain(all, res, path, i - 1);
        let j = choose|j: int| 0 <= j < res.len() && res[j] == path[i - 1] as usize;
        assert(is_child(all, path[i - 1], path[i]));
        assert(0 <= path[i - 1] < all.len());
        assert(0 <= path[i] < all.len());
        assert(res[j] as int == path[i - 1]);
    }
}

/// The indices of the entries of the tree rooted at the first entry whose pid is
/// `parent`, each once; none when no entry has that pid.
fn tree_indices(all: &Vec<PsEntry>, parent: usize) -> (res: Vec<usize>)
    ensures
        lists_tree(all@, parent, res@),
{
    let n = all.len();
    let mut r: usize = 0;
    while r < n && all[r].pid != parent
        invariant
            r <= n == all@.len(),
            forall|j: int| 0 <= j < r ==> all@[j].pid != parent,
        decreases n - r,
    {
        r = r + 1;
    }
    let mut res: Vec<usize> = Vec::new();
    if r == n {
        assert forall|k: int| 0 <= k < all@.len() implies !in_tree(all@, parent, k) by {
            if in_tree(all@, parent, k) {
                let q = choose|q: int| is_root(all@, parent, q) && descends(all@, q, k);
                assert(all@[q].pid != parent);
            }
        }
        return res;
    }
    assert(is_root(all@, parent, r as int));
    let mut visited: Vec<bool> = Vec::new();
    let mut v: usize = 0;
    while v < n
        invariant
            v <= n,
            visited@.len() == v,
            forall|k: int| 0 <= k < v ==> !visited@[k],
        decreases n - v,
    {
        visited.push(false);
        v = v + 1;
    }
    visited.set(r, true);
    res.push(r);
    proof {
        let path = seq![r as int];
        assert(is_chain(all@, path));
        assert(path[0] == r as int && path.last() == r as int);
        assert(descends(all@, r as int, r as int));
        assert(res@ =~= seq![r]);
        assert(res@[0] == r);
        assert forall|k: int| 0 <= k < n implies (visited@[k] <==> res@.contains(k as usize)) by {
            if k == r as int {
                assert(res@[0] == k as usize);
            }
            if res@.contains(k as usize) {
                let y = choose|y: int| 0 <= y < res@.len() && res@[y] == k as usize;
                assert(y == 0);
            }
        }
    }
    let mut c: usize = 0;
    while c < res.len()
        invariant
            n == all@.len(),
            visited@.len() == n,
            r < n,
            res@.len() > 0,
            res@[0] == r,
            res@.no_duplicates(),
            forall|i: int| 0 <= i < res@.len() ==> #[trigger] res@[i] < n,
            forall|k: int| 0 <= k < n ==> (visited@[k] <==> res@.contains(k as usize)),
            forall|i: int| 0 <= i < res@.len() ==> descends(all@, r as int, #[trigger] res@[i] as int),
            c <= res@.len(),
            forall|i: int, m: int|
                0 <= i < c && 0 <= m < n && is_child(all@, res@[i] as int, m)
                    ==> visited@[m],
        decreases n - c,
    {
        proof {
            lemma_distinct_below(res@, n);
        }
        let j = res[c];
        let mut k: usize = 0;
        while k < n
            invariant
                n == all@.len(),
                visited@.len() == n,
                r < n,
                res@.len() > 0,
                res@[0] == r,
                res@.no_duplicates(),
                forall|i: int| 0 <= i < res@.len() ==> #[trigger] res@[i] < n,
                forall|x: int| 0 <= x < n ==> (visited@[x] <==> res@.contains(x as usize)),
                forall|i: int| 0 <= i < res@.len() ==> descends(all@, r as int, #[trigger] res@[i] as int),
                c < res@.len(),
                j == res@[c as int],
                k <= n,
                forall|i: int, m: int|
                    0 <= i < c && 0 <= m < n && is_child(all@, res@[i] as int, m)
                        ==> visited@[m],
                forall|m: int| 0 <= m < k && is_child(all@, j as int, m) ==> visited@[m],
            decreases n - k,
        {
            if !visited[k] && all[k].ppid == all[j].pid {
                proof {
                    assert(descends(all@, r as int, j as int));
                    let path = choose|path: Seq<int>|
                        is_chain(all@, path) && path[0] == r as int && path.last() == j as int;
                    let longer = path.push(k as int);
                    assert(is_chain(all@, longer));
                    assert(longer[0] == r as int && longer.last() == k as int);
                    assert(descends(all@, r as int, k as int));
                    assert(!res@.contains(k));
                }
                let ghost old_res = res@;
                let ghost old_visited = visited@;
                visited.set(k, true);
                res.push(k);
                proof {
                    assert(res@ == old_res.push(k));
                    assert(visited@ == old_visited.update(k as int, true));
                    assert forall|x: int| 0 <= x < n implies (visited@[x] <==> res@.contains(x as usize)) by {
                        if x != k as int {
                            if res@.contains(x as usize) {
                                let y = choose|y: int| 0 <= y < res@.len() && res@[y] == x as usize;
                                assert(y < old_res.len());
                                assert(old_res[y] == x as usize);
                            }
                            if old_res.contains(x as usize) {
                                let y = choose|y: int| 0 <= y < old_res.len() && old_res[y] == x as usize;
                                assert(res@[y] == x as usize);
                            }
                        } else {
                            assert(res@[res@.len() - 1] == k);
                        }
                    }
                    assert forall|i: int| 0 <= i < res@.len() implies descends(all@, r as int, #[trigger] res@[i] as int) by {
                        if i < old_res.len() {
                            assert(res@[i] == old_res[i]);
                        }
                    }
                }
            }
            k = k + 1;
        }
        c = c + 1;
    }
    proof {
        assert forall|k: int| 0 <= k < all@.len() implies (res@.contains(k as usize) <==> in_tree(all@, parent, k)) by {
            if res@.contains(k as usize) {
                let y = choose|y: int| 0 <= y < res@.len() && res@[y] == k as usize;
                assert(descends(all@, r as int, res@[y] as int));
                assert(is_root(all@, parent, r as int));
            }
            if in_tree(all@, parent, k) {
                let q = choose|q: int| is_root(all@, parent, q) && descends(all@, q, k);
                assert(q == r as int);
                assert(res@.contains(r)) by { assert(res@[0] == r); }
                assert forall|i: int, m: int|
                    0 <= i < res@.len() && 0 <= m < all@.len() && is_child(all@, res@[i] as int, m)
                        implies res@.contains(m as usize) by {
                    assert(visited@[m]);
                }
                let path = choose|path: Seq<int>|
                    is_chain(all@, path) && path[0] == r as int && path.last() == k;
                lemma_closed_holds_chain(all@, res@, path, path.len() - 1);
            }
        }
    }
    res
}

/// Lists the entries that are, directly or indirectly, children of the first
/// entry whose pid is `parent`, that entry included. The order is unspecified.
/// When no entry has pid `parent`, the result is empty.
pub fn list_descendants(all: &Vec<PsEntry>, parent: usize) -> (out: Vec<PsEntry>)
    ensures
        is_tree_listing(all@, parent, out@),
{
    let idx = tree_indices(all, parent);
    let mut out: Vec<PsEntry> = Vec::new();
    let mut i: usize = 0;
    while i < idx.len()
        invariant
            lists_tree(all@, parent, idx@),
            i <= idx@.len(),
            out@ == idx@.subrange(0, i as int).map_values(|k: usize| all@[k as int]),
        decreases idx@.len() - i,
    {
        let e = all[idx[i]].clone();
        out.push(e);
        assert(idx@.subrange(0, i + 1).map_values(|k: usize| all@[k as int])
            =~= idx@.subrange(0, i as int).map_values(|k: usize| all@[k as int]).push(e));
        i = i + 1;
    }
    assert(idx@.subrange(0, i as int) =~= idx@);
    assert(lists_tree(all@, parent, idx@) && out@ == idx@.map_values(|k: usize| all@[k as int]));
    out
}

/// When no entry has pid `parent`, the tree rooted there is empty; otherwise it
/// holds the first entry with that pid.
pub proof fn lemma_tree_root(all: Seq<PsEntry>, parent: usize, out: Seq<PsEntry>)
    requires
        all.len() <= usize::MAX,
        is_tree_listing(all, parent, out),
    ensures
        (forall|j: int| 0 <= j < all.len() ==> all[j].pid != parent) ==> out.len() == 0,
        forall|r: int| is_root(all, parent, r) ==> out.contains(all[r]),
{
    let idx = choose|idx: Seq<usize>|
        lists_tree(all, parent, idx) && out == idx.map_values(|k: usize| all[k as int]);
    if forall|j: int| 0 <= j < all.len() ==> all[j].pid != parent {
        if idx.len() > 0 {
            let k = idx[0] as int;
            assert(idx.contains(idx[0]));
            assert(in_tree(all, parent, k));
            let q = choose|q: int| is_root(all, parent, q) && descends(all, q, k);
            assert(all[q].pid == parent);
        }
    }
    assert forall|r: int| is_root(all, parent, r) implies out.contains(all[r]) by {
        let path = seq![r];
        assert(is_chain(all, path));
        assert(path[0] == r && path.last() == r);
        assert(in_tree(all, parent, r));
        assert(idx.contains(r as usize));
        let y = choose|y: int| 0 <= y < idx.len() && idx[y] == r as usize;
        assert(idx[y] as int == r);
        assert(out[y] == all[r]);
    }
}

} // verus!
