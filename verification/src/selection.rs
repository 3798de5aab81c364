//! Which path a click lands on, and the order in which paths are drawn.

use vstd::prelude::*;

verus! {

/// Where the search for a clicked path starts: just after the selected path,
/// or at the first path when none is selected.
pub open spec fn scan_start(curr: Option<usize>) -> int {
    match curr {
        Some(c) => c as int,
        None => -1,
    }
}

/// Position of path `j` in the search: the paths after the start come first,
/// in order, then the paths before it, in order.
pub open spec fn scan_key(start: int, len: int, j: int) -> int {
    if j > start {
        j - start
    } else {
        j + len
    }
}

/// Path `r` is hit, is not the selected path, and comes first in the search
/// among all such paths.
pub open spec fn is_next_hit(hits: Seq<bool>, curr: Option<usize>, r: int) -> bool {
    let start = scan_start(curr);
    &&& 0 <= r < hits.len()
    &&& hits[r]
    &&& r != start
    &&& forall|j: int|
        0 <= j < hits.len() && hits[j] && j != start ==> scan_key(start, hits.len() as int, r)
            <= #[trigger] scan_key(start, hits.len() as int, j)
}

/// Some path other than the selected one is hit.
pub open spec fn some_other_hit(hits: Seq<bool>, curr: Option<usize>) -> bool {
    exists|j: int| 0 <= j < hits.len() && #[trigger] hits[j] && j != scan_start(curr)
}

/// The path that a click selects: the first hit path in search order that is
/// not the selected one; the selection stays as it is when there is none.
pub open spec fn next_hit(hits: Seq<bool>, curr: Option<usize>) -> Option<usize> {
    if exists|r: int| is_next_hit(hits, curr, r) {
        Some((choose|r: int| is_next_hit(hits, curr, r)) as usize)
    } else {
        curr
    }
}

/// At most one path is first in the search.
pub proof fn lemma_next_hit_unique(hits: Seq<bool>, curr: Option<usize>, a: int, b: int)
    requires
        is_next_hit(hits, curr, a),
        is_next_hit(hits, curr, b),
    ensures
        a == b,
{
    let start = scan_start(curr);
    let len = hits.len() as int;
    assert(scan_key(start, len, a) <= scan_key(start, len, b));
    assert(scan_key(start, len, b) <= scan_key(start, len, a));
}

/// Finds the path that a click selects, given for each path whether the click
/// lies within its outline: the first hit path after the selected one, else
/// the first hit path before it; the selection itself when no other path is hit.
pub fn clicked_path(hits: &Vec<bool>, curr: Option<usize>) -> (res: Option<usize>)
    ensures
        res == next_hit(hits@, curr),
        some_other_hit(hits@, curr) ==> (res matches Some(r) && is_next_hit(hits@, curr, r as int)),
        !some_other_hit(hits@, curr) ==> res == curr,
{
    let ghost start = scan_start(curr);
    let len = hits.len();
    let index: usize = match curr {
        Some(c) => c,
        None => 0,
    };
    let mut i: usize = index;
    while i < len
        invariant
            i >= index,
            len == hits.len(),
            start == scan_start(curr),
            index == if start < 0 { 0 } else { start },
            forall|j: int| index <= j < i && j < len && j != start ==> !hits@[j],
        decreases len - i,
    {
        let is_curr = match curr {
            Some(c) => c == i,
            None => false,
        };
        if hits[i] && !is_curr {
            proof {
                assert(is_next_hit(hits@, curr, i as int)) by {
                    assert forall|j: int|
                        0 <= j < hits@.len() && hits@[j] && j != start implies scan_key(start, len as int, i as int)
                            <= #[trigger] scan_key(start, len as int, j) by {
                        if j > start && j < i {
                            assert(!hits@[j]);
                        }
                    }
                }
                lemma_found(hits@, curr, i as int);
            }
            return Some(i);
        }
        i = i + 1;
    }
    match curr {
        None => {
            proof {
                assert(!some_other_hit(hits@, curr)) by {
                    if some_other_hit(hits@, curr) {
                        let j = choose|j: int| 0 <= j < hits@.len() && #[trigger] hits@[j] && j != start;
                        assert(!hits@[j]);
                    }
                }
                lemma_not_found(hits@, curr);
            }
            None
        },
        Some(c) => {
            let mut k: usize = 0;
            while k < len
                invariant
                    len == hits.len(),
                    curr == Some(c),
                    start == c,
                    forall|j: int| c < j < len ==> !hits@[j],
                    forall|j: int| 0 <= j < k && j < len && j != c ==> !hits@[j],
                decreases len - k,
            {
                if hits[k] && k != c {
                    proof {
                        assert(k < c);
                        assert(is_next_hit(hits@, curr, k as int)) by {
                            assert forall|j: int|
                                0 <= j < hits@.len() && hits@[j] && j != start implies scan_key(start, len as int, k as int)
                                    <= #[trigger] scan_key(start, len as int, j) by {
                                if j < k {
                                    assert(!hits@[j]);
                                }
                            }
                        }
                        lemma_found(hits@, curr, k as int);
                    }
                    return Some(k);
                }
                k = k + 1;
            }
            proof {
                assert(!some_other_hit(hits@, curr)) by {
                    if some_other_hit(hits@, curr) {
                        let j = choose|j: int| 0 <= j < hits@.len() && #[trigger] hits@[j] && j != start;
                        assert(!hits@[j]);
                    }
                }
                lemma_not_found(hits@, curr);
            }
            Some(c)
        },
    }
}

proof fn lemma_found(hits: Seq<bool>, curr: Option<usize>, r: int)
    requires
        is_next_hit(hits, curr, r),
    ensures
        next_hit(hits, curr) == Some(r as usize),
        some_other_hit(hits, curr),
{
    let r2 = choose|r2: int| is_next_hit(hits, curr, r2);
    lemma_next_hit_unique(hits, curr, r, r2);
    assert(hits[r]);
}

proof fn lemma_not_found(hits: Seq<bool>, curr: Option<usize>)
    requires
        !some_other_hit(hits, curr),
    ensures
        next_hit(hits, curr) == curr,
{
    if exists|r: int| is_next_hit(hits, curr, r) {
        let r = choose|r: int| is_next_hit(hits, curr, r);
        assert(hits[r]);
    }
}

/// Paths on layers 1 to 10 are drawn; others are not.
pub open spec fn drawn_layer(l: i8) -> bool {
    1 <= l <= 10
}

/// Path `a` is drawn before path `b`: a lower layer first, and within a layer
/// the earlier path first.
pub open spec fn draws_before(layers: Seq<i8>, a: int, b: int) -> bool {
    layers[a] < layers[b] || (layers[a] == layers[b] && a < b)
}

/// The order in which paths are painted, given the layer of each path: every
/// path on layers 1 to 10 exactly once, by layer and then by position, so
/// that higher layers are painted over lower ones.
pub fn draw_order(layers: &Vec<i8>) -> (res: Vec<usize>)
    ensures
        forall|k: int| 0 <= k < res.len() ==> (#[trigger] res@[k]) < layers.len() && drawn_layer(layers@[res@[k] as int]),
        forall|i: int| 0 <= i < layers.len() && drawn_layer(layers@[i]) ==> res@.contains(i as usize),
        forall|a: int, b: int| 0 <= a < b < res.len() ==> draws_before(layers@, #[trigger] res@[a] as int, #[trigger] res@[b] as int),
{
    let len = layers.len();
    let mut res: Vec<usize> = Vec::new();
    let mut layer: i8 = 1;
    while layer <= 10
        invariant
            1 <= layer <= 11,
            len == layers.len(),
            forall|k: int| 0 <= k < res.len() ==> (#[trigger] res@[k]) < len && 1 <= layers@[res@[k] as int] < layer,
            forall|i: int| 0 <= i < len && 1 <= #[trigger] layers@[i] < layer ==> res@.contains(i as usize),
            forall|a: int, b: int| 0 <= a < b < res.len() ==> draws_before(layers@, #[trigger] res@[a] as int, #[trigger] res@[b] as int),
        decreases 11 - layer,
    {
        let mut i: usize = 0;
        while i < len
            invariant
                1 <= layer <= 10,
                i <= len,
                len == layers.len(),
                forall|k: int| 0 <= k < res.len() ==> (#[trigger] res@[k]) < len && (1 <= layers@[res@[k] as int] < layer
                    || (layers@[res@[k] as int] == layer && res@[k] < i)),
                forall|i2: int| 0 <= i2 < len && (1 <= #[trigger] layers@[i2] < layer || (layers@[i2] == layer && i2 < i)) ==> res@.contains(i2 as usize),
                forall|a: int, b: int| 0 <= a < b < res.len() ==> draws_before(layers@, #[trigger] res@[a] as int, #[trigger] res@[b] as int),
            decreases len - i,
        {
            if layers[i] == layer {
                let ghost before = res@;
                res.push(i);
                assert forall|i2: int| 0 <= i2 < len && (1 <= layers@[i2] < layer || (layers@[i2] == layer && i2 < i + 1)) implies res@.contains(i2 as usize) by {
                    if i2 == i {
                        assert(res@[res@.len() - 1] == i);
                    } else {
                        assert(before.contains(i2 as usize));
                        let k = choose|k: int| 0 <= k < before.len() && before[k] == i2 as usize;
                        assert(res@[k] == i2 as usize);
                    }
                }
                assert forall|a: int, b: int| 0 <= a < b < res.len() implies draws_before(layers@, #[trigger] res@[a] as int, #[trigger] res@[b] as int) by {
                    if b == res.len() - 1 {
                        assert(before[a] == res@[a]);
                    } else {
                        assert(before[a] == res@[a] && before[b] == res@[b]);
                    }
                }
            }
            i = i + 1;
        }
        layer = layer + 1;
    }
    res
}

} // verus!
