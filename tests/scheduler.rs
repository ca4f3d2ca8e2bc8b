use cav_synth::scheduler::{releases, worker_chunks, Arrival, SpinBarrier};

#[test]
fn two_workers_split_the_stock_patch() {
    assert_eq!(worker_chunks(52, 2), vec![(26, 52), (0, 26)]);
    assert_eq!(worker_chunks(51, 2), vec![(25, 51), (0, 25)]);
}

#[test]
fn chunks_cover_every_module_once() {
    for n in 0..40usize {
        for threads in 1..6usize {
            let chunks = worker_chunks(n, threads);
            assert_eq!(chunks.len(), threads);
            let mut seen = vec![0u32; n];
            for (a, b) in chunks {
                assert!(a <= b && b <= n);
                for i in a..b {
                    seen[i] += 1;
                }
            }
            assert!(seen.iter().all(|&c| c == 1));
        }
    }
}

#[test]
fn more_workers_than_modules_get_empty_chunks() {
    assert_eq!(worker_chunks(1, 2), vec![(0, 1), (0, 0)]);
    assert_eq!(worker_chunks(0, 3), vec![(0, 0), (0, 0), (0, 0)]);
}

#[test]
fn last_arrival_releases() {
    assert!(releases(2, 3));
    assert!(!releases(1, 3));
    assert!(!releases(0, 0));
    let b = SpinBarrier::new(1);
    assert_eq!(b.count(), 1);
    assert!(matches!(b.arrive(), Arrival::Released));
    let b2 = SpinBarrier::new(2);
    match b2.arrive() {
        Arrival::Waiting(gen) => {
            assert!(!b2.is_released(gen));
            assert!(matches!(b2.arrive(), Arrival::Released));
            assert!(b2.is_released(gen));
        }
        Arrival::Released => panic!("released with one of two parties"),
    }
}
