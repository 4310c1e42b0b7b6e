use vstd::prelude::*;

verus! {

/// Largest number of remaining moves one observation can carry.
pub const MAX_MOVES: u128 = 4294967295;

/// Observations that fell into one entropy bucket: how many there were and the
/// sum of their remaining-move counts.
#[derive(Clone, Copy, Debug, PartialEq, Eq, Structural)]
pub struct BucketTally {
    /// Bucket number: the entropy divided by the bucket width, rounded down.
    pub index: i64,
    /// Sum of the remaining-move counts of the bucket's observations.
    pub total_moves: u128,
    /// Number of observations in the bucket.
    pub count: usize,
}

/// Number of observations in bucket `b`.
pub open spec fn count_in(obs: Seq<(i64, u32)>, b: i64) -> nat
    decreases obs.len(),
{
    if obs.len() == 0 {
        0
    } else {
        count_in(obs.drop_last(), b) + if obs.last().0 == b { 1nat } else { 0nat }
    }
}

/// Sum of the remaining-move counts of the observations in bucket `b`.
pub open spec fn moves_in(obs: Seq<(i64, u32)>, b: i64) -> nat
    decreases obs.len(),
{
    if obs.len() == 0 {
        0
    } else {
        moves_in(obs.drop_last(), b) + if obs.last().0 == b { obs.last().1 as nat } else { 0nat }
    }
}

/// Bucket numbers strictly increase along the list.
pub open spec fn ascending(t: Seq<BucketTally>) -> bool {
    forall|a: int, b: int| 0 <= a < b < t.len() ==> t[a].index < t[b].index
}

/// `t` lists, in ascending order, exactly the buckets that hold observations,
/// each with its count and its sum of remaining moves.
pub open spec fn tallies_of(obs: Seq<(i64, u32)>, t: Seq<BucketTally>) -> bool {
    &&& ascending(t)
    &&& forall|k: int|
        0 <= k < t.len() ==> #[trigger] t[k].count == count_in(obs, t[k].index)
            && t[k].total_moves == moves_in(obs, t[k].index)
    &&& forall|b: i64| count_in(obs, b) > 0 <==> exists|k: int| 0 <= k < t.len() && #[trigger] t[k].index == b
}

proof fn lemma_moves_bound(obs: Seq<(i64, u32)>, b: i64)
    ensures
        moves_in(obs, b) <= count_in(obs, b) * MAX_MOVES,
        count_in(obs, b) <= obs.len(),
    decreases obs.len(),
{
    if obs.len() > 0 {
        lemma_moves_bound(obs.drop_last(), b);
    }
}

proof fn lemma_extend(pre: Seq<(i64, u32)>, x: (i64, u32))
    ensures
        forall|bb: i64|
            #[trigger] count_in(pre.push(x), bb) == count_in(pre, bb) + if x.0 == bb {
                1nat
            } else {
                0nat
            },
        forall|bb: i64|
            #[trigger] moves_in(pre.push(x), bb) == moves_in(pre, bb) + if x.0 == bb {
                x.1 as nat
            } else {
                0nat
            },
{
    assert(pre.push(x).drop_last() =~= pre);
}

/// Groups (bucket number, remaining moves) observations by bucket, in ascending
/// bucket order, with the count and move sum of each bucket.
pub fn tally_buckets(obs: &Vec<(i64, u32)>) -> (r: Vec<BucketTally>)
    ensures
        tallies_of(obs@, r@),
{
    let mut r: Vec<BucketTally> = Vec::new();
    let mut i: usize = 0;
    while i < obs.len()
        invariant
            0 <= i <= obs@.len(),
            tallies_of(obs@.subrange(0, i as int), r@),
        decreases obs@.len() - i,
    {
        let (b, m) = obs[i];
        let ghost pre = obs@.subrange(0, i as int);
        let ghost post = obs@.subrange(0, i as int + 1);
        proof {
            assert(pre.push((b, m)) =~= post);
            lemma_extend(pre, (b, m));
        }
        let mut k: usize = 0;
        while k < r.len() && r[k].index < b
            invariant
                0 <= k <= r@.len(),
                forall|j: int| 0 <= j < k ==> #[trigger] r@[j].index < b,
                tallies_of(pre, r@),
            decreases r@.len() - k,
        {
            k = k + 1;
        }
        if k < r.len() && r[k].index == b {
            let old_t = r[k];
            proof {
                lemma_moves_bound(post, b);
            }
            let t = BucketTally {
                index: b,
                total_moves: old_t.total_moves + m as u128,
                count: old_t.count + 1,
            };
            let ghost r0 = r@;
            r.set(k, t);
            proof {
                assert(r@ == r0.update(k as int, t));
                assert forall|j: int| 0 <= j < r@.len() implies #[trigger] r@[j].count == count_in(
                    post,
                    r@[j].index,
                ) && r@[j].total_moves == moves_in(post, r@[j].index) by {
                    if j != k {
                        assert(r0[j].index != b);
                        assert(r0[j].count == count_in(pre, r0[j].index));
                        assert(count_in(post, r0[j].index) == count_in(pre, r0[j].index));
                        assert(moves_in(post, r0[j].index) == moves_in(pre, r0[j].index));
                    } else {
                        assert(r0[j].count == count_in(pre, b));
                        assert(count_in(post, b) == count_in(pre, b) + 1);
                        assert(moves_in(post, b) == moves_in(pre, b) + m);
                    }
                }
                assert forall|bb: i64| (exists|j: int| 0 <= j < r@.len() && #[trigger] r@[j].index == bb) implies count_in(post, bb) > 0 by {
                    let j = choose|j: int| 0 <= j < r@.len() && #[trigger] r@[j].index == bb;
                    assert(r0[j].index == bb);
                }
                assert forall|bb: i64| count_in(post, bb) > 0 implies exists|j: int|
                    0 <= j < r@.len() && #[trigger] r@[j].index == bb by {
                    if bb == b {
                        assert(r@[k as int].index == bb);
                    } else {
                        assert(count_in(pre, bb) > 0);
                        let j = choose|j: int| 0 <= j < r0.len() && #[trigger] r0[j].index == bb;
                        assert(r@[j].index == bb);
                    }
                }
            }
        } else {
            proof {
                assert(count_in(pre, b) == 0) by {
                    if count_in(pre, b) > 0 {
                        let j = choose|j: int| 0 <= j < r@.len() && #[trigger] r@[j].index == b;
                        if j < k {
                        } else {
                            assert(r@[k as int].index <= r@[j].index);
                        }
                    }
                }
            }
            let t = BucketTally { index: b, total_moves: m as u128, count: 1 };
            let ghost r0 = r@;
            r.insert(k, t);
            proof {
                assert(r@ == r0.insert(k as int, t));
                assert forall|bb: i64| count_in(post, bb) > 0 implies exists|j: int|
                    0 <= j < r@.len() && #[trigger] r@[j].index == bb by {
                    if bb != b {
                        assert(count_in(pre, bb) > 0);
                        let j = choose|j: int| 0 <= j < r0.len() && #[trigger] r0[j].index == bb;
                        if j < k {
                            assert(r@[j].index == bb);
                        } else {
                            assert(r@[j + 1].index == bb);
                        }
                    } else {
                        assert(r@[k as int].index == bb);
                    }
                }
                assert forall|bb: i64| (exists|j: int| 0 <= j < r@.len() && #[trigger] r@[j].index == bb) implies count_in(post, bb) > 0 by {
                    let j = choose|j: int| 0 <= j < r@.len() && #[trigger] r@[j].index == bb;
                    if j < k {
                        assert(r0[j].index == bb);
                        assert(count_in(pre, bb) > 0);
                    } else if j > k {
                        assert(r0[j - 1].index == bb);
                        assert(count_in(pre, bb) > 0);
                    }
                }
                assert forall|j: int| 0 <= j < r@.len() implies #[trigger] r@[j].count == count_in(
                    post,
                    r@[j].index,
                ) && r@[j].total_moves == moves_in(post, r@[j].index) by {
                    if j < k {
                        assert(r0[j].index < b);
                        assert(r0[j].count == count_in(pre, r0[j].index));
                        assert(count_in(post, r0[j].index) == count_in(pre, r0[j].index));
                        assert(moves_in(post, r0[j].index) == moves_in(pre, r0[j].index));
                    } else if j > k {
                        assert(r0[k as int].index > b);
                        assert(r0[j - 1].index >= r0[k as int].index);
                        assert(r0[j - 1].count == count_in(pre, r0[j - 1].index));
                        assert(count_in(post, r0[j - 1].index) == count_in(pre, r0[j - 1].index));
                        assert(moves_in(post, r0[j - 1].index) == moves_in(pre, r0[j - 1].index));
                    } else {
                        assert(count_in(post, b) == count_in(pre, b) + 1);
                        assert(moves_in(post, b) == moves_in(pre, b) + m);
                        assert(moves_in(pre, b) == 0) by {
                            lemma_moves_bound(pre, b);
                        }
                    }
                }
                assert(ascending(r@)) by {
                    assert forall|a: int, c: int| 0 <= a < c < r@.len() implies r@[a].index < r@[c].index by {
                        if c == k {
                            assert(r0[a].index < b);
                        } else if a == k {
                            assert(r0[k as int].index > b);
                            assert(r0[c - 1].index >= r0[k as int].index);
                        }
                    }
                }
            }
        }
        i = i + 1;
    }
    proof {
        assert(obs@.subrange(0, obs@.len() as int) =~= obs@);
    }
    r
}

} // verus!
