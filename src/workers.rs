use vstd::prelude::*;

verus! {

/// How many secrets, from the most common word on, a training run replays.
pub const TRAINING_SECRET_LIMIT: usize = 1500;

/// How many guesses a simulated solve may make before it is given up.
pub const TRAINING_ROUND_LIMIT: usize = 6;

/// Secret `i` of `m` belongs to worker `w` of `n`: `i < m` and `i mod n == w`.
pub open spec fn in_share(w: int, n: int, m: int, i: int) -> bool {
    0 <= i < m && i % n == w
}

/// Relies on `num_cpus::get`: the number of logical CPUs this process may use,
/// documented to be at least one.
#[verifier::external_body]
fn logical_cpus() -> (r: usize)
    ensures
        r >= 1,
{
    num_cpus::get()
}

/// Number of workers to run: all `logical` CPUs when `requested` is zero,
/// otherwise `requested`, but never more than `logical`.
pub fn resolve_worker_count(requested: usize, logical: usize) -> (n: usize)
    ensures
        n == if requested == 0 {
            logical
        } else if requested < logical {
            requested
        } else {
            logical
        },
{
    if requested == 0 {
        logical
    } else if requested < logical {
        requested
    } else {
        logical
    }
}

/// Number of workers to run on this machine for a request of `requested`
/// (zero asks for one per logical CPU): at least one, and at most `requested`
/// when that is not zero.
pub fn worker_count(requested: usize) -> (n: usize)
    ensures
        n >= 1,
        requested > 0 ==> n <= requested,
{
    let logical = logical_cpus();
    resolve_worker_count(requested, logical)
}

/// The secrets of `0..secret_count` that worker `worker_id` of `total_workers`
/// replays, in ascending order: those whose index leaves remainder `worker_id`
/// when divided by `total_workers`.
pub fn worker_secrets(worker_id: usize, total_workers: usize, secret_count: usize) -> (r: Vec<
    usize,
>)
    requires
        total_workers > 0,
    ensures
        forall|a: int, b: int| 0 <= a < b < r@.len() ==> r@[a] < r@[b],
        forall|x: usize|
            #[trigger] r@.contains(x) <==> in_share(
                worker_id as int,
                total_workers as int,
                secret_count as int,
                x as int,
            ),
{
    let mut r: Vec<usize> = Vec::new();
    let mut i: usize = 0;
    while i < secret_count
        invariant
            0 <= i <= secret_count,
            total_workers > 0,
            forall|a: int, b: int| 0 <= a < b < r@.len() ==> r@[a] < r@[b],
            forall|a: int| 0 <= a < r@.len() ==> r@[a] < i,
            forall|x: usize|
                #[trigger] r@.contains(x) <==> in_share(
                    worker_id as int,
                    total_workers as int,
                    i as int,
                    x as int,
                ),
        decreases secret_count - i,
    {
        if i % total_workers == worker_id {
            let ghost r0 = r@;
            r.push(i);
            proof {
                assert forall|x: usize|
                    #[trigger] r@.contains(x) <==> in_share(
                        worker_id as int,
                        total_workers as int,
                        i + 1,
                        x as int,
                    ) by {
                    if r@.contains(x) && x != i {
                        let k = choose|k: int| 0 <= k < r@.len() && r@[k] == x;
                        assert(r0[k] == x);
                        assert(r0.contains(x));
                    }
                    if x == i {
                        assert(r@[r0.len() as int] == i);
                    }
                    if in_share(worker_id as int, total_workers as int, i as int, x as int) {
                        assert(r0.contains(x));
                        let k = choose|k: int| 0 <= k < r0.len() && r0[k] == x;
                        assert(r@[k] == x);
                    }
                }
            }
        }
        i = i + 1;
    }
    r
}

/// The workers' shares cover the secrets exactly: for `n >= 1` workers and `m`
/// secrets, every secret `i` below `m` belongs to worker `i mod n`, which is below `n`, to no other
/// worker, and no worker holds a secret outside `0..m`.
pub proof fn lemma_shares_partition(n: int, m: int)
    requires
        n >= 1,
        m >= 0,
    ensures
        forall|i: int| 0 <= i < m ==> #[trigger] in_share(i % n, n, m, i) && 0 <= i % n < n,
        forall|w1: int, w2: int, i: int|
            #[trigger] in_share(w1, n, m, i) && #[trigger] in_share(w2, n, m, i) ==> w1 == w2,
        forall|w: int, i: int| #[trigger] in_share(w, n, m, i) ==> 0 <= w < n && 0 <= i < m,
{
}

} // verus!
