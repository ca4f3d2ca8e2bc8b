//! How the module list is shared among the real-time worker threads: the
//! split into contiguous chunks, and the spinning barrier, built on an
//! arrival counter and a generation counter, that separates the ticks.
use std::sync::atomic::{AtomicUsize, Ordering};
use vstd::prelude::*;

verus! {

/// Whether the thread that found `previous` earlier arrivals is the last of
/// `count` parties, and so releases the barrier.
pub fn releases(previous: usize, count: usize) -> (r: bool)
    ensures
        r == (previous as int + 1 == count as int),
{
    count > 0 && previous == count - 1
}

/// What happened to a thread that arrived at the barrier.
pub enum Arrival {
    /// This thread was the last to arrive: the barrier is open for all.
    Released,
    /// Others are still missing: wait until the generation moves on from
    /// the one held here.
    Waiting(usize),
}

pub struct SpinBarrier {
    count: usize,
    arrival: AtomicUsize,
    generation: AtomicUsize,
}

impl SpinBarrier {
    pub closed spec fn parties(&self) -> nat {
        self.count as nat
    }

    pub fn new(count: usize) -> (r: SpinBarrier)
        ensures
            r.parties() == count,
    {
        SpinBarrier { count, arrival: AtomicUsize::new(0), generation: AtomicUsize::new(0) }
    }

    pub fn count(&self) -> (r: usize)
        ensures
            r == self.parties(),
    {
        self.count
    }

    /// Registers this thread's arrival. The last of the parties resets the
    /// arrival counter and opens the next generation; every other thread gets
    /// the generation it has to see pass.
    pub fn arrive(&self) -> Arrival {
        let gen = self.generation.load(Ordering::Acquire);
        let previous = self.arrival.fetch_add(1, Ordering::AcqRel);
        if releases(previous, self.count) {
            self.arrival.store(0, Ordering::Release);
            self.generation.fetch_add(1, Ordering::Release);
            Arrival::Released
        } else {
            Arrival::Waiting(gen)
        }
    }

    /// Whether the generation `gen` that a waiting thread holds has passed.
    pub fn is_released(&self, gen: usize) -> bool {
        self.generation.load(Ordering::Acquire) != gen
    }
}

/// Modules per worker: the module count divided by the thread count, rounded up.
pub open spec fn chunk_len(n: nat, threads: nat) -> nat
    recommends
        threads > 0,
{
    ((n + threads - 1) / threads as int) as nat
}

/// How many modules, counted from the end of the list, the first `m` chunks take.
pub open spec fn taken(n: nat, threads: nat, m: nat) -> nat {
    if m * chunk_len(n, threads) >= n {
        n
    } else {
        m * chunk_len(n, threads)
    }
}

proof fn lemma_taken_step(n: nat, threads: nat, m: nat)
    requires
        threads > 0,
    ensures
        taken(n, threads, m + 1) == if taken(n, threads, m) + chunk_len(n, threads) >= n {
            n
        } else {
            taken(n, threads, m) + chunk_len(n, threads)
        },
{
    let c = chunk_len(n, threads);
    assert((m + 1) * c == m * c + c) by (nonlinear_arith);
}

proof fn lemma_all_taken(n: nat, threads: nat)
    requires
        threads > 0,
    ensures
        taken(n, threads, threads) == n,
{
    let c = chunk_len(n, threads);
    assert(threads * c >= n) by (nonlinear_arith)
        requires
            threads > 0,
            c == (n + threads - 1) / threads as int,
    ;
}

/// Whether chunk `m` of the split holds module `i`.
pub open spec fn in_chunk(n: nat, threads: nat, m: nat, i: nat) -> bool {
    n - taken(n, threads, m + 1) <= i && i < n - taken(n, threads, m)
}

proof fn lemma_taken_monotone(n: nat, threads: nat, m1: nat, m2: nat)
    requires
        m1 <= m2,
    ensures
        taken(n, threads, m1) <= taken(n, threads, m2),
{
    let c = chunk_len(n, threads);
    assert(m1 * c <= m2 * c) by (nonlinear_arith)
        requires
            m1 <= m2,
    ;
}

proof fn lemma_chunk_found(n: nat, threads: nat, i: nat, j: nat)
    requires
        i < n,
        taken(n, threads, j) > n - 1 - i,
    ensures
        exists|m: nat| m < j && #[trigger] in_chunk(n, threads, m, i),
    decreases j,
{
    if j == 0 {
        assert(taken(n, threads, 0) == 0);
    } else if taken(n, threads, (j - 1) as nat) <= n - 1 - i {
        assert(in_chunk(n, threads, (j - 1) as nat, i));
    } else {
        lemma_chunk_found(n, threads, i, (j - 1) as nat);
    }
}

/// The split gives each module to exactly one worker: no module is left out
/// and no two workers share one.
pub proof fn law_chunks_partition(n: nat, threads: nat, i: nat)
    requires
        threads > 0,
        i < n,
    ensures
        exists|m: nat| m < threads && #[trigger] in_chunk(n, threads, m, i),
        forall|m1: nat, m2: nat|
            #[trigger] in_chunk(n, threads, m1, i) && #[trigger] in_chunk(n, threads, m2, i) ==> m1
                == m2,
{
    lemma_all_taken(n, threads);
    lemma_chunk_found(n, threads, i, threads);
    assert forall|m1: nat, m2: nat|
        #[trigger] in_chunk(n, threads, m1, i) && #[trigger] in_chunk(n, threads, m2, i) implies m1
        == m2 by {
        if m1 < m2 {
            lemma_taken_monotone(n, threads, m1 + 1, m2);
        } else if m2 < m1 {
            lemma_taken_monotone(n, threads, m2 + 1, m1);
        }
    }
}

/// The modules that each of `threads` workers processes, as half-open ranges
/// of positions. The list is cut into chunks of `chunk_len` from its end, so
/// the first worker takes the last modules; a worker left without modules
/// gets an empty range.
pub fn worker_chunks(module_count: usize, threads: usize) -> (r: Vec<(usize, usize)>)
    requires
        threads > 0,
    ensures
        r@.len() == threads,
        forall|m: int|
            0 <= m < threads ==> #[trigger] r@[m] == (
                (module_count - taken(module_count as nat, threads as nat, (m + 1) as nat)) as usize,
                (module_count - taken(module_count as nat, threads as nat, m as nat)) as usize,
            ),
        r@[0].1 == module_count,
        r@[threads - 1].0 == 0,
        forall|m: int| 0 <= m < threads - 1 ==> #[trigger] r@[m].0 == r@[m + 1].1,
        forall|m: int|
            0 <= m < threads ==> r@[m].0 <= #[trigger] r@[m].1 && r@[m].1 - r@[m].0 <= chunk_len(
                module_count as nat,
                threads as nat,
            ),
{
    let n = module_count;
    let q = n / threads;
    proof {
        if n % threads != 0 {
            assert(q < n) by (nonlinear_arith)
                requires
                    q == n as int / threads as int,
                    threads > 0,
                    n as int % threads as int != 0,
            ;
        }
    }
    let c = if n % threads == 0 { q } else { q + 1 };
    proof {
        assert(c == chunk_len(n as nat, threads as nat)) by (nonlinear_arith)
            requires
                threads > 0,
                c == (n as int / threads as int) + if n as int % threads as int == 0 { 0int } else { 1int },
        ;
    }
    let mut r: Vec<(usize, usize)> = Vec::new();
    let mut done: usize = 0;
    let mut m: usize = 0;
    while m < threads
        invariant
            m <= threads,
            c == chunk_len(n as nat, threads as nat),
            done == taken(n as nat, threads as nat, m as nat),
            done <= n,
            r@.len() == m,
            forall|k: int|
                0 <= k < m ==> #[trigger] r@[k] == (
                    (n - taken(n as nat, threads as nat, (k + 1) as nat)) as usize,
                    (n - taken(n as nat, threads as nat, k as nat)) as usize,
                ),
        decreases threads - m,
    {
        proof {
            lemma_taken_step(n as nat, threads as nat, m as nat);
        }
        let next = if c >= n - done { n } else { done + c };
        r.push((n - next, n - done));
        done = next;
        m = m + 1;
    }
    proof {
        lemma_all_taken(n as nat, threads as nat);
        assert(taken(n as nat, threads as nat, 0) == 0);
        assert forall|m: int| 0 <= m < threads implies r@[m].0 <= #[trigger] r@[m].1 && r@[m].1
            - r@[m].0 <= c by {
            lemma_taken_step(n as nat, threads as nat, m as nat);
        }
    }
    r
}

} // verus!
