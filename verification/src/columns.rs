//! The column assigner: given the ordered list of column x-anchors taken
//! from a table's first row, assigns a fragment to the anchor nearest its
//! own x-coordinate.  Ties choose the anchor with the lowest index, never a
//! later one.

use vstd::prelude::*;

verus! {

/// The distance between two coordinates.
pub open spec fn cdist(a: int, b: int) -> int {
    if a >= b {
        a - b
    } else {
        b - a
    }
}

/// `r` is the index of the anchor nearest `x`, with ties resolved to the
/// lowest index: no anchor is nearer, and every earlier anchor is strictly
/// farther.
pub open spec fn nearest_ok(anchors: Seq<i64>, x: int, r: int) -> bool {
    &&& 0 <= r < anchors.len()
    &&& forall|k: int|
        0 <= k < anchors.len() ==> cdist(anchors[k] as int, x) >= cdist(anchors[r] as int, x)
    &&& forall|k: int| 0 <= k < r ==> cdist(anchors[k] as int, x) > cdist(anchors[r] as int, x)
}

/// The nearest-anchor scan from index `k` with current best `best`.
pub open spec fn nearest_from(anchors: Seq<i64>, x: int, k: int, best: int) -> int
    decreases anchors.len() - k when 0 <= k <= anchors.len()
{
    if k >= anchors.len() {
        best
    } else if cdist(anchors[k] as int, x) < cdist(anchors[best] as int, x) {
        nearest_from(anchors, x, k + 1, k)
    } else {
        nearest_from(anchors, x, k + 1, best)
    }
}

/// The index of the anchor nearest `x`, ties resolved to the lowest index.
pub open spec fn nearest_idx(anchors: Seq<i64>, x: int) -> int {
    nearest_from(anchors, x, 1, 0)
}

/// The nearest-anchor scan yields the lowest-index nearest anchor.
proof fn lemma_nearest_from_ok(anchors: Seq<i64>, x: int, k: int, best: int)
    requires
        1 <= anchors.len(),
        0 <= best < k <= anchors.len(),
        forall|j: int|
            0 <= j < k ==> cdist(#[trigger] anchors[j] as int, x) >= cdist(
                anchors[best] as int,
                x,
            ),
        forall|j: int|
            0 <= j < best ==> cdist(#[trigger] anchors[j] as int, x) > cdist(
                anchors[best] as int,
                x,
            ),
    ensures
        nearest_ok(anchors, x, nearest_from(anchors, x, k, best)),
    decreases anchors.len() - k,
{
    if k >= anchors.len() {
    } else if cdist(anchors[k] as int, x) < cdist(anchors[best] as int, x) {
        lemma_nearest_from_ok(anchors, x, k + 1, k);
    } else {
        lemma_nearest_from_ok(anchors, x, k + 1, best);
    }
}

/// The index satisfying the nearest-anchor conditions is unique.
pub proof fn lemma_nearest_unique(anchors: Seq<i64>, x: int, r1: int, r2: int)
    requires
        nearest_ok(anchors, x, r1),
        nearest_ok(anchors, x, r2),
    ensures
        r1 == r2,
{
    if r1 < r2 {
        assert(cdist(anchors[r1] as int, x) > cdist(anchors[r2] as int, x));
        assert(cdist(anchors[r2] as int, x) >= cdist(anchors[r1] as int, x));
    } else if r2 < r1 {
        assert(cdist(anchors[r2] as int, x) > cdist(anchors[r1] as int, x));
        assert(cdist(anchors[r1] as int, x) >= cdist(anchors[r2] as int, x));
    }
}

/// `nearest_idx` satisfies the nearest-anchor conditions.
pub proof fn lemma_nearest_idx_ok(anchors: Seq<i64>, x: int)
    requires
        anchors.len() >= 1,
    ensures
        nearest_ok(anchors, x, nearest_idx(anchors, x)),
{
    lemma_nearest_from_ok(anchors, x, 1, 0);
}

/// The distance between an anchor and a fragment coordinate, in a wide word
/// so that no pair of coordinates can overflow.
fn dist(a: i64, x: i64) -> (d: i128)
    ensures
        d == cdist(a as int, x as int),
{
    let d = (a as i128) - (x as i128);
    if d < 0 {
        -d
    } else {
        d
    }
}

/// The index of the anchor nearest `x`; ties pick the lowest index.
pub fn nearest_anchor(anchors: &Vec<i64>, x: i64) -> (r: usize)
    requires
        anchors@.len() >= 1,
    ensures
        nearest_ok(anchors@, x as int, r as int),
{
    let mut best: usize = 0;
    let mut bd: i128 = dist(anchors[0], x);
    let mut k: usize = 1;
    while k < anchors.len()
        invariant
            anchors@.len() >= 1,
            0 <= best < k <= anchors@.len(),
            bd == cdist(anchors@[best as int] as int, x as int),
            forall|j: int| 0 <= j < k ==> cdist(anchors@[j] as int, x as int) >= bd,
            forall|j: int| 0 <= j < best ==> cdist(anchors@[j] as int, x as int) > bd,
        decreases anchors@.len() - k,
    {
        let dk = dist(anchors[k], x);
        if dk < bd {
            best = k;
            bd = dk;
        }
        k += 1;
    }
    best
}

} // verus!
