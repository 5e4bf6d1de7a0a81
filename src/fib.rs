use std::collections::HashMap;
use vstd::arithmetic::power2::{lemma2_to64, lemma_pow2_pos, lemma_pow2_strictly_increases, lemma_pow2_unfold, pow2};
use vstd::prelude::*;

verus! {

broadcast use vstd::std_specs::hash::group_hash_axioms;

/// The Fibonacci sequence: `fib(0) == 0`, `fib(1) == 1`,
/// `fib(n) == fib(n - 1) + fib(n - 2)` for `n >= 2`.
pub open spec fn fib(n: nat) -> nat
    decreases n,
{
    if n < 2 {
        n
    } else {
        fib((n - 1) as nat) + fib((n - 2) as nat)
    }
}

/// Each Fibonacci number is the sum of the two before it, from index 2 on.
pub proof fn lemma_fib_recurrence(n: nat)
    requires
        n >= 2,
    ensures
        fib(n) == fib((n - 1) as nat) + fib((n - 2) as nat),
{
}

/// The sequence never decreases.
pub proof fn lemma_fib_monotonic(i: nat, j: nat)
    requires
        i <= j,
    ensures
        fib(i) <= fib(j),
    decreases j - i,
{
    if i < j {
        lemma_fib_monotonic(i, (j - 1) as nat);
        if j >= 2 {
            lemma_fib_recurrence(j);
        }
    }
}

/// From index 6 on, the value exceeds its index.
pub proof fn lemma_fib_exceeds_index(n: nat)
    requires
        n >= 6,
    ensures
        n < fib(n),
    decreases n,
{
    if n <= 7 {
        reveal_with_fuel(fib, 8);
    } else {
        lemma_fib_exceeds_index((n - 1) as nat);
        lemma_fib_monotonic(6, (n - 2) as nat);
        reveal_with_fuel(fib, 7);
    }
}

/// Fibonacci numbers grow no faster than powers of two.
pub proof fn lemma_fib_le_pow2(n: nat)
    ensures
        fib(n) <= pow2(n),
    decreases n,
{
    if n >= 2 {
        lemma_fib_le_pow2((n - 1) as nat);
        lemma_fib_le_pow2((n - 2) as nat);
        lemma_pow2_unfold(n);
        lemma_pow2_strictly_increases((n - 2) as nat, (n - 1) as nat);
    } else {
        lemma_pow2_pos(0);
        lemma_pow2_unfold(1);
    }
}

/// Up to index 31 the value fits in a `usize` of any supported width, so
/// every operation of `FibUtil` accepts those indices.
pub proof fn lemma_fib_fits_small(n: nat)
    requires
        n <= 31,
    ensures
        fib(n) <= usize::MAX,
{
    lemma_fib_le_pow2(n);
    if n < 31 {
        lemma_pow2_strictly_increases(n, 31);
    }
    lemma2_to64();
}

/// Every entry of a memo cache holds the Fibonacci number of its key.
pub open spec fn cache_valid(m: Map<usize, usize>) -> bool {
    forall|k: usize| #[trigger] m.contains_key(k) ==> m[k] as nat == fib(k as nat)
}

/// What one call of `fib_rec_memo(n, cache)` does, with the cache going from
/// `before` to `after` and returning `r`: the result is `fib(n)`; the cache
/// stays valid and keeps every entry; it gains only keys in `2..=n`; it holds
/// `n` afterwards when `n >= 2`; and a call that finds its answer without
/// recursing (`n < 2`, or `n` already cached) leaves the cache as it was.
pub open spec fn memo_call(
    n: usize,
    before: Map<usize, usize>,
    after: Map<usize, usize>,
    r: usize,
) -> bool {
    &&& r as nat == fib(n as nat)
    &&& cache_valid(after)
    &&& before.submap_of(after)
    &&& forall|k: usize| #[trigger]
        after.contains_key(k) ==> before.contains_key(k) || (2 <= k && k <= n)
    &&& n >= 2 ==> after.contains_key(n)
    &&& (n < 2 || before.contains_key(n)) ==> after == before
}

/// Calling `fib_rec_memo` twice on one cache gives the same result both
/// times, and the second call is a cache hit that leaves the cache unchanged.
pub proof fn lemma_memo_call_idempotent(
    n: usize,
    c0: Map<usize, usize>,
    c1: Map<usize, usize>,
    c2: Map<usize, usize>,
    r1: usize,
    r2: usize,
)
    requires
        memo_call(n, c0, c1, r1),
        memo_call(n, c1, c2, r2),
    ensures
        r1 == r2,
        n < 2 || c1.contains_key(n),
        c2 == c1,
{
}

/// Computes Fibonacci numbers. Every operation requires that the answer
/// fits in a `usize`; within that range no addition overflows.
pub struct FibUtil;

impl FibUtil {
    /// Plain double recursion, exponential time.
    pub fn fib_rec(n: usize) -> (r: usize)
        requires
            fib(n as nat) <= usize::MAX,
        ensures
            r == fib(n as nat),
        decreases n,
    {
        if n < 2 {
            n
        } else {
            Self::fib_rec(n - 1) + Self::fib_rec(n - 2)
        }
    }

    /// Double recursion that first looks `n` up in `cache` and stores each
    /// value it computes for an index of 2 or more.
    pub fn fib_rec_memo(n: usize, cache: &mut HashMap<usize, usize>) -> (r: usize)
        requires
            fib(n as nat) <= usize::MAX,
            cache_valid(old(cache)@),
        ensures
            r == fib(n as nat),
            memo_call(n, old(cache)@, final(cache)@, r),
        decreases n,
    {
        if n < 2 {
            return n;
        }
        match cache.get(&n) {
            Some(v) => {
                return *v;
            },
            None => {},
        }
        let ghost c0 = cache@;
        let a = Self::fib_rec_memo(n - 1, cache);
        let ghost c1 = cache@;
        let b = Self::fib_rec_memo(n - 2, cache);
        let ghost c2 = cache@;
        let result = a + b;
        cache.insert(n, result);
        proof {
            assert(!c2.contains_key(n));
            assert forall|k: usize| #[trigger] c0.contains_key(k) implies c2.contains_key(k)
                && c2[k] == c0[k] by {
                assert(c1.contains_key(k));
            }
        }
        result
    }

    /// Two accumulators advanced in lockstep, constant space.
    pub fn fib_loop(n: usize) -> (r: usize)
        requires
            fib(n as nat) <= usize::MAX,
        ensures
            r == fib(n as nat),
    {
        if n < 2 {
            return n;
        }
        let mut a: usize = 0;
        let mut b: usize = 1;
        let mut i: usize = 1;
        while i < n
            invariant
                1 <= i <= n,
                fib(n as nat) <= usize::MAX,
                a == fib((i - 1) as nat),
                b == fib(i as nat),
            decreases n - i,
        {
            proof {
                lemma_fib_monotonic((i + 1) as nat, n as nat);
            }
            let tmp = a + b;
            a = b;
            b = tmp;
            i = i + 1;
        }
        b
    }

    /// Fills a table of every value from index 0 to `n` and returns its last
    /// entry.
    pub fn fib_loop_memory(n: usize) -> (r: usize)
        requires
            fib(n as nat) <= usize::MAX,
        ensures
            r == fib(n as nat),
    {
        if n < 2 {
            return n;
        }
        proof {
            if n >= 6 {
                lemma_fib_exceeds_index(n as nat);
            }
        }
        let mut arr: Vec<usize> = vec![0; n + 1];
        arr.set(1, 1);
        let mut i: usize = 2;
        while i <= n
            invariant
                2 <= i <= n + 1,
                n < usize::MAX,
                fib(n as nat) <= usize::MAX,
                arr.len() == n + 1,
                forall|j: int| 0 <= j < i ==> #[trigger] arr[j] == fib(j as nat),
            decreases n + 1 - i,
        {
            proof {
                lemma_fib_monotonic(i as nat, n as nat);
            }
            let next = arr[i - 1] + arr[i - 2];
            arr.set(i, next);
            i = i + 1;
        }
        arr[n]
    }
}

} // verus!
