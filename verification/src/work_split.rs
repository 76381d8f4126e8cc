//! How a render and a photon shoot are shared out among worker threads:
//! each thread gets an equal share, and the last one also gets what is left
//! over.
use vstd::prelude::*;

verus! {

/// The first row that thread `index` of `threads` renders.
pub open spec fn rows_start(height: nat, threads: nat, index: nat) -> nat {
    index * (height / threads)
}

/// The row after the last one that thread `index` of `threads` renders.
pub open spec fn rows_end(height: nat, threads: nat, index: nat) -> nat {
    (index + 1) * (height / threads) + if index + 1 == threads {
        height % threads
    } else {
        0
    }
}

/// The number of photons that thread `index` of `threads` shoots.
pub open spec fn photon_share(total: nat, threads: nat, index: nat) -> nat {
    total / threads + if index + 1 == threads {
        total % threads
    } else {
        0
    }
}

/// The photons that threads `0..n` shoot together.
pub open spec fn photons_shot(total: nat, threads: nat, n: nat) -> nat
    decreases n,
{
    if n == 0 {
        0
    } else {
        photons_shot(total, threads, (n - 1) as nat) + photon_share(total, threads, (n - 1) as nat)
    }
}

/// The rows `start..end` that thread `index` of `threads` renders.
pub fn thread_rows(height: u32, threads: u32, index: u32) -> (r: (u32, u32))
    requires
        threads > 0,
        index < threads,
    ensures
        r.0 == rows_start(height as nat, threads as nat, index as nat),
        r.1 == rows_end(height as nat, threads as nat, index as nat),
        r.0 <= r.1 <= height,
{
    let rows_per_thread = height / threads;
    let extra_rows = height % threads;
    proof {
        assert((index + 1) * rows_per_thread <= threads * rows_per_thread) by (nonlinear_arith)
            requires
                index < threads,
        ;
        assert(threads * rows_per_thread + extra_rows == height) by (nonlinear_arith)
            requires
                rows_per_thread == height / threads,
                extra_rows == height % threads,
                threads > 0,
        ;
        assert(index * rows_per_thread <= (index + 1) * rows_per_thread) by (nonlinear_arith);
    }
    let start_y = index * rows_per_thread;
    let mut end_y = (index + 1) * rows_per_thread;
    if index == threads - 1 {
        end_y += extra_rows;
    }
    (start_y, end_y)
}

/// The number of photons that thread `index` of `threads` shoots.
pub fn thread_photons(total: u32, threads: u32, index: u32) -> (r: u32)
    requires
        threads > 0,
        index < threads,
    ensures
        r == photon_share(total as nat, threads as nat, index as nat),
{
    let photons_per_thread = total / threads;
    let extra_photons = total % threads;
    proof {
        assert(photons_per_thread + extra_photons <= total) by (nonlinear_arith)
            requires
                photons_per_thread == total / threads,
                extra_photons == total % threads,
                threads > 0,
        ;
    }
    let mut num = photons_per_thread;
    if index == threads - 1 {
        num += extra_photons;
    }
    num
}

/// The threads' rows follow one another without gap or overlap, from the
/// first row to the last.
pub proof fn law_rows_tile(height: nat, threads: nat, index: nat)
    requires
        threads > 0,
        index < threads,
    ensures
        rows_start(height, threads, 0) == 0,
        index + 1 < threads ==> rows_end(height, threads, index) == rows_start(
            height,
            threads,
            index + 1,
        ),
        rows_end(height, threads, (threads - 1) as nat) == height,
        rows_start(height, threads, index) <= rows_end(height, threads, index),
{
    let q = height / threads;
    assert(threads * q + height % threads == height) by (nonlinear_arith)
        requires
            q == height / threads,
            threads > 0,
    ;
    assert(index * q <= (index + 1) * q) by (nonlinear_arith);
    assert(((threads - 1) as nat + 1) * q == threads * q);
}

proof fn lemma_photons_shot(total: nat, threads: nat, n: nat)
    requires
        threads > 0,
        n < threads,
    ensures
        photons_shot(total, threads, n) == n * (total / threads),
    decreases n,
{
    if n > 0 {
        lemma_photons_shot(total, threads, (n - 1) as nat);
        let q = total / threads;
        let m = (n - 1) as nat;
        assert(m * q + q == (m + 1) * q) by (nonlinear_arith);
        assert(m + 1 == n);
        assert(photon_share(total, threads, m) == q);
        assert(photons_shot(total, threads, n) == photons_shot(total, threads, m) + q);
    } else {
        assert(0 * (total / threads) == 0) by (nonlinear_arith);
    }
}

/// All threads together shoot exactly the photons asked for.
pub proof fn law_photons_add_up(total: nat, threads: nat)
    requires
        threads > 0,
    ensures
        photons_shot(total, threads, threads) == total,
{
    lemma_photons_shot(total, threads, (threads - 1) as nat);
    let q = total / threads;
    assert(((threads - 1) as nat) * q + q + total % threads == total) by (nonlinear_arith)
        requires
            q == total / threads,
            threads > 0,
    ;
}

} // verus!
