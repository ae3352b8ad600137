//! Ordering of `(key, position)` pairs, used to read the index in
//! recency or idleness order without moving the rows themselves.
//!
//! Callers pass the pairs in canonical form (`pairs[j].1 == j`); the result
//! is then a permutation of the positions, sorted by key, and every output
//! pair still carries the key of the row it points at.

use vstd::prelude::*;

verus! {

/// Sorts pairs by key, ascending and stable. The output holds exactly the
/// input pairs: each output pair is the input pair at its own position,
/// positions are pairwise distinct, every position appears, and equal keys
/// keep their position order.
#[verifier::rlimit(50)]
pub fn sort_pairs_asc(pairs: &Vec<(i64, usize)>) -> (out: Vec<(i64, usize)>)
    requires
        forall|j: int| 0 <= j < pairs@.len() ==> (#[trigger] pairs@[j]).1 == j,
    ensures
        out@.len() == pairs@.len(),
        forall|k: int|
            0 <= k < out@.len() ==> (#[trigger] out@[k]).1 < pairs@.len() && out@[k] == pairs@[out@[k].1 as int],
        forall|k1: int, k2: int|
            0 <= k1 < k2 < out@.len() ==> (#[trigger] out@[k1]).1 != (#[trigger] out@[k2]).1,
        forall|j: int| 0 <= j < pairs@.len() ==> out@.contains(#[trigger] pairs@[j]),
        forall|k1: int, k2: int|
            0 <= k1 < k2 < out@.len() ==> (#[trigger] out@[k1]).0 <= (#[trigger] out@[k2]).0,
        forall|k1: int, k2: int|
            (0 <= k1 < k2 < out@.len() && (#[trigger] out@[k1]).0 == (#[trigger] out@[k2]).0)
                ==> out@[k1].1 < out@[k2].1,
{
    let n = pairs.len();
    let mut out: Vec<(i64, usize)> = Vec::new();
    let ghost mut loc: Seq<int> = Seq::empty();
    let mut j: usize = 0;
    while j < n
        invariant
            n == pairs@.len(),
            forall|t: int| 0 <= t < n ==> (#[trigger] pairs@[t]).1 == t,
            j <= n,
            out@.len() == j,
            forall|k: int|
                0 <= k < out@.len() ==> (#[trigger] out@[k]).1 < j && out@[k] == pairs@[out@[k].1 as int],
            forall|k1: int, k2: int|
                0 <= k1 < k2 < out@.len() ==> (#[trigger] out@[k1]).1 != (#[trigger] out@[k2]).1,
            loc.len() == j,
            forall|t: int|
                0 <= t < j ==> 0 <= #[trigger] loc[t] < out@.len() && out@[loc[t]] == pairs@[t],
            forall|k1: int, k2: int|
                0 <= k1 < k2 < out@.len() ==> (#[trigger] out@[k1]).0 <= (#[trigger] out@[k2]).0,
            forall|k1: int, k2: int|
                (0 <= k1 < k2 < out@.len() && (#[trigger] out@[k1]).0 == (#[trigger] out@[k2]).0)
                    ==> out@[k1].1 < out@[k2].1,
        decreases n - j,
    {
        let pair = pairs[j];
        let key = pair.0;
        let mut p: usize = out.len();
        while p > 0 && out[p - 1].0 > key
            invariant
                p <= out@.len(),
                forall|t: int| p <= t < out@.len() ==> (#[trigger] out@[t]).0 > key,
            decreases p,
        {
            p = p - 1;
        }
        let ghost prev = out@;
        let ghost pp = p as int;
        out.insert(p, pair);
        proof {
            assert forall|k: int|
                0 <= k < out@.len() implies (#[trigger] out@[k]).1 < j + 1 && out@[k] == pairs@[out@[k].1 as int] by {
                if k < pp {
                    assert(out@[k] == prev[k]);
                } else if k > pp {
                    assert(out@[k] == prev[k - 1]);
                }
            }
            let loc0 = loc;
            loc = Seq::new((j + 1) as nat, |t: int| if t == j as int {
                pp
            } else if loc0[t] >= pp {
                loc0[t] + 1
            } else {
                loc0[t]
            });
            assert forall|t: int|
                0 <= t < j + 1 implies 0 <= #[trigger] loc[t] < out@.len() && out@[loc[t]]
                == pairs@[t] by {
                if t == j as int {
                    assert(out@[pp] == pairs@[t]);
                } else {
                    assert(0 <= loc0[t] < prev.len() && prev[loc0[t]] == pairs@[t]);
                    if loc0[t] >= pp {
                        assert(out@[loc0[t] + 1] == prev[loc0[t]]);
                    } else {
                        assert(out@[loc0[t]] == prev[loc0[t]]);
                    }
                }
            }
            assert forall|k1: int, k2: int|
                0 <= k1 < k2 < out@.len() implies (#[trigger] out@[k1]).0 <= (#[trigger] out@[k2]).0 by {
                if k1 < pp && k2 < pp {
                    assert(out@[k1] == prev[k1] && out@[k2] == prev[k2]);
                } else if k1 > pp && k2 > pp {
                    assert(out@[k1] == prev[k1 - 1] && out@[k2] == prev[k2 - 1]);
                } else if k1 < pp && k2 > pp {
                    assert(out@[k1] == prev[k1] && out@[k2] == prev[k2 - 1]);
                    assert(prev[k1].0 <= prev[pp - 1].0);
                } else if k2 == pp {
                    assert(out@[k1] == prev[k1]);
                    assert(prev[k1].0 <= prev[pp - 1].0);
                } else {
                    assert(out@[k2] == prev[k2 - 1]);
                }
            }
            assert forall|k1: int, k2: int|
                (0 <= k1 < k2 < out@.len() && (#[trigger] out@[k1]).0 == (#[trigger] out@[k2]).0)
                    implies out@[k1].1 < out@[k2].1 by {
                if k1 < pp && k2 < pp {
                    assert(out@[k1] == prev[k1] && out@[k2] == prev[k2]);
                } else if k1 > pp && k2 > pp {
                    assert(out@[k1] == prev[k1 - 1] && out@[k2] == prev[k2 - 1]);
                } else if k1 < pp && k2 > pp {
                    assert(out@[k1] == prev[k1] && out@[k2] == prev[k2 - 1]);
                } else if k2 == pp {
                    // everything kept left of the insertion point has a key
                    // no larger, and position below the inserted pair's
                    assert(out@[k1] == prev[k1]);
                } else {
                    // k1 == pp < k2: the tail beyond the insertion point
                    // holds strictly larger keys
                    assert(out@[k2] == prev[k2 - 1]);
                    assert(prev[k2 - 1].0 > key);
                }
            }
        }
        j = j + 1;
    }
    proof {
        assert forall|t: int| 0 <= t < pairs@.len() implies out@.contains(
            #[trigger] pairs@[t],
        ) by {
            assert(0 <= loc[t] < out@.len() && out@[loc[t]] == pairs@[t]);
        }
    }
    out
}

/// Sorts pairs by key, descending, with the same permutation guarantees as
/// [`sort_pairs_asc`].
#[verifier::rlimit(50)]
pub fn sort_pairs_desc(pairs: &Vec<(i64, usize)>) -> (out: Vec<(i64, usize)>)
    requires
        forall|j: int| 0 <= j < pairs@.len() ==> (#[trigger] pairs@[j]).1 == j,
    ensures
        out@.len() == pairs@.len(),
        forall|k: int|
            0 <= k < out@.len() ==> (#[trigger] out@[k]).1 < pairs@.len() && out@[k] == pairs@[out@[k].1 as int],
        forall|k1: int, k2: int|
            0 <= k1 < k2 < out@.len() ==> (#[trigger] out@[k1]).1 != (#[trigger] out@[k2]).1,
        forall|j: int| 0 <= j < pairs@.len() ==> out@.contains(#[trigger] pairs@[j]),
        forall|k1: int, k2: int|
            0 <= k1 < k2 < out@.len() ==> (#[trigger] out@[k1]).0 >= (#[trigger] out@[k2]).0,
{
    let n = pairs.len();
    let mut out: Vec<(i64, usize)> = Vec::new();
    let ghost mut loc: Seq<int> = Seq::empty();
    let mut j: usize = 0;
    while j < n
        invariant
            n == pairs@.len(),
            forall|t: int| 0 <= t < n ==> (#[trigger] pairs@[t]).1 == t,
            j <= n,
            out@.len() == j,
            forall|k: int|
                0 <= k < out@.len() ==> (#[trigger] out@[k]).1 < j && out@[k] == pairs@[out@[k].1 as int],
            forall|k1: int, k2: int|
                0 <= k1 < k2 < out@.len() ==> (#[trigger] out@[k1]).1 != (#[trigger] out@[k2]).1,
            loc.len() == j,
            forall|t: int|
                0 <= t < j ==> 0 <= #[trigger] loc[t] < out@.len() && out@[loc[t]] == pairs@[t],
            forall|k1: int, k2: int|
                0 <= k1 < k2 < out@.len() ==> (#[trigger] out@[k1]).0 >= (#[trigger] out@[k2]).0,
        decreases n - j,
    {
        let pair = pairs[j];
        let key = pair.0;
        let mut p: usize = out.len();
        while p > 0 && out[p - 1].0 < key
            invariant
                p <= out@.len(),
                forall|t: int| p <= t < out@.len() ==> (#[trigger] out@[t]).0 < key,
            decreases p,
        {
            p = p - 1;
        }
        let ghost prev = out@;
        let ghost pp = p as int;
        out.insert(p, pair);
        proof {
            assert forall|k: int|
                0 <= k < out@.len() implies (#[trigger] out@[k]).1 < j + 1 && out@[k] == pairs@[out@[k].1 as int] by {
                if k < pp {
                    assert(out@[k] == prev[k]);
                } else if k > pp {
                    assert(out@[k] == prev[k - 1]);
                }
            }
            let loc0 = loc;
            loc = Seq::new((j + 1) as nat, |t: int| if t == j as int {
                pp
            } else if loc0[t] >= pp {
                loc0[t] + 1
            } else {
                loc0[t]
            });
            assert forall|t: int|
                0 <= t < j + 1 implies 0 <= #[trigger] loc[t] < out@.len() && out@[loc[t]]
                == pairs@[t] by {
                if t == j as int {
                    assert(out@[pp] == pairs@[t]);
                } else {
                    assert(0 <= loc0[t] < prev.len() && prev[loc0[t]] == pairs@[t]);
                    if loc0[t] >= pp {
                        assert(out@[loc0[t] + 1] == prev[loc0[t]]);
                    } else {
                        assert(out@[loc0[t]] == prev[loc0[t]]);
                    }
                }
            }
            assert forall|k1: int, k2: int|
                0 <= k1 < k2 < out@.len() implies (#[trigger] out@[k1]).0 >= (#[trigger] out@[k2]).0 by {
                if k1 < pp && k2 < pp {
                    assert(out@[k1] == prev[k1] && out@[k2] == prev[k2]);
                } else if k1 > pp && k2 > pp {
                    assert(out@[k1] == prev[k1 - 1] && out@[k2] == prev[k2 - 1]);
                } else if k1 < pp && k2 > pp {
                    assert(out@[k1] == prev[k1] && out@[k2] == prev[k2 - 1]);
                    assert(prev[k1].0 >= prev[pp - 1].0);
                } else if k2 == pp {
                    assert(out@[k1] == prev[k1]);
                    assert(prev[k1].0 >= prev[pp - 1].0);
                } else {
                    assert(out@[k2] == prev[k2 - 1]);
                }
            }
        }
        j = j + 1;
    }
    proof {
        assert forall|t: int| 0 <= t < pairs@.len() implies out@.contains(
            #[trigger] pairs@[t],
        ) by {
            assert(0 <= loc[t] < out@.len() && out@[loc[t]] == pairs@[t]);
        }
    }
    out
}

} // verus!
