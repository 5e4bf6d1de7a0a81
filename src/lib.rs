//! Four ways to compute Fibonacci numbers on `usize`, each proved to return
//! the canonical sequence value.

mod fib;

pub use fib::{
    cache_valid, fib, lemma_fib_exceeds_index, lemma_fib_fits_small, lemma_fib_le_pow2,
    lemma_fib_monotonic, lemma_fib_recurrence, lemma_memo_call_idempotent, memo_call, FibUtil,
};
