use wordle_solver::workers::{resolve_worker_count, worker_count, worker_secrets};

#[test]
fn worker_secrets_stride() {
    assert_eq!(worker_secrets(1, 3, 10), vec![1, 4, 7]);
    assert_eq!(worker_secrets(0, 3, 10), vec![0, 3, 6, 9]);
    assert_eq!(worker_secrets(0, 1, 4), vec![0, 1, 2, 3]);
    assert_eq!(worker_secrets(5, 6, 5), Vec::<usize>::new());
}

#[test]
fn worker_shares_partition_every_index() {
    for m in 1..=12usize {
        for n in 1..=m {
            let mut owner = vec![None; m];
            for w in 0..n {
                for i in worker_secrets(w, n, m) {
                    assert!(i < m);
                    assert_eq!(owner[i], None);
                    owner[i] = Some(w);
                }
            }
            assert!(owner.iter().all(|o| o.is_some()));
        }
    }
}

#[test]
fn resolve_worker_count_cases() {
    assert_eq!(resolve_worker_count(0, 8), 8);
    assert_eq!(resolve_worker_count(3, 8), 3);
    assert_eq!(resolve_worker_count(12, 8), 8);
}

#[test]
fn worker_count_is_at_least_one() {
    assert!(worker_count(0) >= 1);
    let n = worker_count(1);
    assert_eq!(n, 1);
}
