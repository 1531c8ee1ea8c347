//! Deriving translation series from the shortest-path tree.
//!
//! A leaf is a node that is nobody's predecessor. For each leaf the
//! predecessor chain is walked up to the root and reversed, giving a
//! root-to-leaf chain of threads: one series, the unit of translation work.
//! A series is skipped only when every one of its threads has zero
//! untranslated lines remaining.

use vstd::prelude::*;

use crate::dijkstra::reaches_root;
use crate::errors::TlError;
use crate::graph::ThreadKey;

verus! {

/// What `dijkstra` guarantees of its output: every chain reaches the root
/// within `N` steps, every entry is in range, and the root points to itself.
pub open spec fn pred_tree_ok(pred: Seq<u32>) -> bool {
    &&& pred.len() >= 1
    &&& pred[0] == 0
    &&& forall|v: int| 1 <= v < pred.len() ==> ((#[trigger] pred[v]) as int) < pred.len()
    &&& forall|v: int| 0 <= v < pred.len() ==> reaches_root(pred, v, pred.len() as nat)
}

/// `r` is the root-to-leaf series of `leaf` under `pred`: it ends at the
/// leaf, each entry is the predecessor of the next, and its first entry is a
/// child of the root. These conditions pin the series uniquely.
pub open spec fn is_series_of(pred: Seq<u32>, leaf: u32, r: Seq<u32>) -> bool {
    &&& r.len() >= 1
    &&& r[r.len() - 1] == leaf
    &&& forall|i: int| 0 <= i < r.len() ==> 1 <= ((#[trigger] r[i]) as int) < pred.len()
    &&& forall|i: int| 0 <= i < r.len() - 1 ==> (#[trigger] r[i]) == pred[r[i + 1] as int]
    &&& pred[r[0] as int] == 0
}

proof fn lemma_series_align(pred: Seq<u32>, leaf: u32, a: Seq<u32>, b: Seq<u32>, k: int)
    requires
        is_series_of(pred, leaf, a),
        is_series_of(pred, leaf, b),
        0 <= k < a.len(),
        k < b.len(),
    ensures
        a[a.len() - 1 - k] == b[b.len() - 1 - k],
    decreases k,
{
    if k > 0 {
        lemma_series_align(pred, leaf, a, b, k - 1);
        assert(a[a.len() - 1 - k] == pred[a[a.len() - k] as int]);
        assert(b[b.len() - 1 - k] == pred[b[b.len() - k] as int]);
    }
}

/// Series extraction is a function of the predecessor array alone: two
/// series of the same leaf over the same array are equal, so re-running the
/// extraction yields the same series in the same order.
pub proof fn lemma_series_unique(pred: Seq<u32>, leaf: u32, a: Seq<u32>, b: Seq<u32>)
    requires
        is_series_of(pred, leaf, a),
        is_series_of(pred, leaf, b),
    ensures
        a == b,
{
    let al = a.len() as int;
    let bl = b.len() as int;
    if al < bl {
        lemma_series_align(pred, leaf, a, b, al - 1);
        assert(b[bl - al] == a[0]);
        assert(b[bl - al - 1] == pred[b[bl - al] as int]);
        assert(1 <= b[bl - al - 1]);
        assert(false);
    }
    if bl < al {
        lemma_series_align(pred, leaf, a, b, bl - 1);
        assert(a[al - bl] == b[0]);
        assert(a[al - bl - 1] == pred[a[al - bl] as int]);
        assert(1 <= a[al - bl - 1]);
        assert(false);
    }
    assert forall|i: int| 0 <= i < al implies a[i] == b[i] by {
        lemma_series_align(pred, leaf, a, b, al - 1 - i);
    }
    assert(a =~= b);
}

/// The leaves of the predecessor tree, ascending: the nodes that appear as
/// nobody's predecessor.
pub fn leaves(pred: &Vec<u32>) -> (r: Vec<u32>)
    requires
        pred@.len() < 0x1_0000_0000,
    ensures
        forall|i: int, j: int| 0 <= i < j < r@.len() ==> r@[i] < r@[j],
        forall|i: int|
            0 <= i < r@.len() ==> ((#[trigger] r@[i]) as int) < pred@.len() && !pred@.contains(
                r@[i],
            ),
        forall|v: u32| (v as int) < pred@.len() && !pred@.contains(v) ==> r@.contains(v),
{
    let n = pred.len();
    let mut out: Vec<u32> = Vec::new();
    let mut v: usize = 0;
    while v < n
        invariant
            n == pred@.len(),
            n < 0x1_0000_0000,
            v <= n,
            forall|i: int, j: int| 0 <= i < j < out@.len() ==> out@[i] < out@[j],
            forall|i: int| 0 <= i < out@.len() ==> ((#[trigger] out@[i]) as int) < v,
            forall|i: int|
                0 <= i < out@.len() ==> ((#[trigger] out@[i]) as int) < pred@.len()
                    && !pred@.contains(out@[i]),
            forall|w: u32| (w as int) < v && !pred@.contains(w) ==> out@.contains(w),
        decreases n - v,
    {
        let mut found = false;
        let mut j: usize = 0;
        while j < n
            invariant
                n == pred@.len(),
                v < n,
                j <= n,
                found == (exists|t: int| 0 <= t < j && pred@[t] == v as u32),
            decreases n - j,
        {
            if pred[j] == v as u32 {
                found = true;
            }
            j += 1;
        }
        if !found {
            let ghost out_old = out@;
            out.push(v as u32);
            proof {
                assert(!pred@.contains(v as u32));
                assert forall|w: u32| (w as int) < v + 1 && !pred@.contains(w) implies
                    out@.contains(w) by {
                    if (w as int) < v {
                        let t = choose|t: int| 0 <= t < out_old.len() && out_old[t] == w;
                        assert(out@[t] == w);
                    } else {
                        assert(out@[out@.len() - 1] == w);
                    }
                }
            }
        } else {
            proof {
                assert(pred@.contains(v as u32));
            }
        }
        v += 1;
    }
    out
}

/// The root-to-leaf chain of `leaf`: the predecessor walk, reversed.
pub fn extract_series(pred: &Vec<u32>, leaf: u32) -> (r: Vec<u32>)
    requires
        pred_tree_ok(pred@),
        1 <= leaf,
        (leaf as int) < pred@.len(),
    ensures
        is_series_of(pred@, leaf, r@),
{
    let mut path: Vec<u32> = Vec::new();
    path.push(leaf);
    let mut cur: u32 = leaf;
    let ghost mut fuel: nat = pred@.len() as nat;
    while pred[cur as usize] != 0
        invariant
            pred_tree_ok(pred@),
            1 <= cur,
            (cur as int) < pred@.len(),
            path@.len() >= 1,
            path@[0] == leaf,
            path@[path@.len() - 1] == cur,
            forall|i: int| 0 <= i < path@.len() ==> 1 <= ((#[trigger] path@[i]) as int) < pred@.len(),
            forall|i: int|
                0 <= i < path@.len() - 1 ==> path@[i + 1] == pred@[(#[trigger] path@[i]) as int],
            reaches_root(pred@, cur as int, fuel),
        decreases fuel,
    {
        let nxt = pred[cur as usize];
        proof {
            assert(reaches_root(pred@, cur as int, fuel));
            assert(fuel > 0);
            fuel = (fuel - 1) as nat;
        }
        path.push(nxt);
        cur = nxt;
    }
    let mut out: Vec<u32> = Vec::new();
    let l = path.len();
    let mut i: usize = l;
    while i > 0
        invariant
            l == path@.len(),
            i <= l,
            out@.len() == l - i,
            forall|j: int| 0 <= j < out@.len() ==> (#[trigger] out@[j]) == path@[l - 1 - j],
        decreases i,
    {
        i -= 1;
        let x = path[i];
        out.push(x);
    }
    proof {
        assert(out@[out@.len() - 1] == path@[0]);
        assert(out@[0] == path@[l - 1]);
        assert forall|j: int|
            #![trigger out@[j]]
            0 <= j < out@.len() - 1 implies out@[j] == pred@[(out@[j + 1]) as int] by {
            assert(out@[j] == path@[l - 1 - j]);
            assert(out@[j + 1] == path@[l - 2 - j]);
            assert(path@[(l - 2 - j) + 1] == pred@[path@[l - 2 - j] as int]);
        }
    }
    out
}

/// Maps a chain of node ids back to thread keys: node `i + 1` is the thread
/// at position `i` of the vertex enumeration; node `0`, the synthetic root,
/// never stands in a series.
pub fn series_keys(vertices: &Vec<ThreadKey>, path: &Vec<u32>) -> (r: Result<Vec<ThreadKey>, TlError>)
    ensures
        match r {
            Ok(ks) => ks@.len() == path@.len() && (forall|i: int|
                0 <= i < path@.len() ==> 1 <= ((#[trigger] path@[i]) as int)
                    <= vertices@.len()) && (forall|i: int|
                0 <= i < ks@.len() ==> ((#[trigger] ks@[i])@) == vertices@[path@[i] - 1]@),
            Err(e) => e is UnknownThread && (exists|i: int|
                0 <= i < path@.len() && !(1 <= ((#[trigger] path@[i]) as int) <= vertices@.len())),
        },
{
    let mut ks: Vec<ThreadKey> = Vec::new();
    let mut i: usize = 0;
    while i < path.len()
        invariant
            i <= path@.len(),
            ks@.len() == i,
            forall|j: int| 0 <= j < i ==> 1 <= ((#[trigger] path@[j]) as int) <= vertices@.len(),
            forall|j: int| 0 <= j < i ==> ((#[trigger] ks@[j])@) == vertices@[path@[j] - 1]@,
        decreases path@.len() - i,
    {
        let v = path[i];
        if v == 0 || v as usize > vertices.len() {
            return Err(TlError::UnknownThread);
        }
        let k = vertices[(v - 1) as usize].clone();
        ks.push(k);
        i += 1;
    }
    Ok(ks)
}

/// How many untranslated lines a thread has left; threads with none are
/// simply absent.
#[derive(Debug)]
pub struct RemEntry {
    pub key: ThreadKey,
    pub remaining: u8,
}

/// The thread `k` still has untranslated lines according to `rem`.
pub open spec fn has_work(rem: Seq<RemEntry>, k: (u16, Seq<char>)) -> bool {
    exists|i: int| 0 <= i < rem.len() && ((#[trigger] rem[i]).key@) == k && rem[i].remaining > 0
}

/// Whether the thread `k` has untranslated lines left.
pub fn thread_has_work(remaining: &Vec<RemEntry>, k: &ThreadKey) -> (r: bool)
    ensures
        r == has_work(remaining@, k@),
{
    let mut j: usize = 0;
    while j < remaining.len()
        invariant
            j <= remaining@.len(),
            forall|t: int|
                0 <= t < j ==> !(((#[trigger] remaining@[t]).key@) == k@ && remaining@[t].remaining
                    > 0),
        decreases remaining@.len() - j,
    {
        if remaining[j].key.key_eq(k) && remaining[j].remaining > 0 {
            return true;
        }
        j += 1;
    }
    false
}

/// Whether a whole series can be skipped: true exactly when every thread of
/// the series has zero untranslated lines remaining, so a rerun makes no
/// service call for it. One thread with work left keeps the series alive.
pub fn should_skip(series: &Vec<ThreadKey>, remaining: &Vec<RemEntry>) -> (r: bool)
    ensures
        r == (forall|i: int|
            0 <= i < series@.len() ==> !has_work(remaining@, ((#[trigger] series@[i])@))),
{
    let mut i: usize = 0;
    while i < series.len()
        invariant
            i <= series@.len(),
            forall|j: int| 0 <= j < i ==> !has_work(remaining@, ((#[trigger] series@[j])@)),
        decreases series@.len() - i,
    {
        if thread_has_work(remaining, &series[i]) {
            return false;
        }
        i += 1;
    }
    true
}

} // verus!
