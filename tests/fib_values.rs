use fib_rust::FibUtil;
use std::collections::HashMap;

fn all_variants(n: usize) -> [usize; 4] {
    let mut cache: HashMap<usize, usize> = HashMap::new();
    [
        FibUtil::fib_rec(n),
        FibUtil::fib_rec_memo(n, &mut cache),
        FibUtil::fib_loop(n),
        FibUtil::fib_loop_memory(n),
    ]
}

#[test]
fn variants_agree_up_to_thirty() {
    for n in 0..=30usize {
        let r = all_variants(n);
        assert_eq!(r[0], r[1], "memoized differs at {}", n);
        assert_eq!(r[0], r[2], "loop differs at {}", n);
        assert_eq!(r[0], r[3], "table differs at {}", n);
    }
}

#[test]
fn known_values() {
    let expected: [(usize, usize); 5] = [(0, 0), (1, 1), (2, 1), (10, 55), (20, 6765)];
    for (n, f) in expected {
        assert_eq!(all_variants(n), [f; 4], "at index {}", n);
    }
}

#[test]
fn thirtieth_value() {
    assert_eq!(all_variants(30), [832040; 4]);
}

#[test]
fn memo_second_call_is_a_hit() {
    let mut cache: HashMap<usize, usize> = HashMap::new();
    let first = FibUtil::fib_rec_memo(20, &mut cache);
    let snapshot = cache.clone();
    let second = FibUtil::fib_rec_memo(20, &mut cache);
    assert_eq!(first, 6765);
    assert_eq!(second, first);
    assert_eq!(cache, snapshot);
}

#[test]
fn memo_fills_cache_from_two_to_n() {
    let mut cache: HashMap<usize, usize> = HashMap::new();
    FibUtil::fib_rec_memo(12, &mut cache);
    let mut keys: Vec<usize> = cache.keys().copied().collect();
    keys.sort();
    assert_eq!(keys, (2..=12).collect::<Vec<usize>>());
    assert_eq!(cache[&12], 144);
    assert_eq!(cache[&7], 13);
}

#[test]
fn memo_uses_existing_entries() {
    let mut cache: HashMap<usize, usize> = HashMap::new();
    cache.insert(15, 610);
    cache.insert(14, 377);
    let r = FibUtil::fib_rec_memo(16, &mut cache);
    assert_eq!(r, 987);
    assert_eq!(cache[&16], 987);
    assert_eq!(cache.len(), 3);
}

#[test]
fn memo_base_cases_leave_cache_untouched() {
    let mut cache: HashMap<usize, usize> = HashMap::new();
    assert_eq!(FibUtil::fib_rec_memo(0, &mut cache), 0);
    assert_eq!(FibUtil::fib_rec_memo(1, &mut cache), 1);
    assert!(cache.is_empty());
}

#[test]
fn recurrence_holds_for_every_variant() {
    for n in 2..=25usize {
        let now = all_variants(n);
        let one_back = all_variants(n - 1);
        let two_back = all_variants(n - 2);
        for v in 0..4 {
            assert_eq!(now[v], one_back[v] + two_back[v], "variant {} at {}", v, n);
        }
    }
}

#[test]
fn boundary_indices() {
    assert_eq!(FibUtil::fib_loop_memory(0), 0);
    assert_eq!(FibUtil::fib_loop_memory(1), 1);
    assert_eq!(FibUtil::fib_loop(0), 0);
    assert_eq!(FibUtil::fib_loop(1), 1);
    assert_eq!(FibUtil::fib_rec(0), 0);
    assert_eq!(FibUtil::fib_rec(1), 1);
}

#[test]
fn end_to_end_twenty_zero_one() {
    assert_eq!(all_variants(20), [6765; 4]);
    assert_eq!(all_variants(0), [0; 4]);
    assert_eq!(all_variants(1), [1; 4]);
}

#[test]
fn largest_index_for_64_bit_usize() {
    if usize::BITS == 64 {
        let big: usize = 12200160415121876738;
        assert_eq!(FibUtil::fib_loop(93), big);
        assert_eq!(FibUtil::fib_loop_memory(93), big);
        let mut cache: HashMap<usize, usize> = HashMap::new();
        assert_eq!(FibUtil::fib_rec_memo(93, &mut cache), big);
    }
}
