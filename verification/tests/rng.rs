use std::collections::HashSet;

use work_queue::rng::Rng;

#[test]
fn rng() {
    let mut rng = Rng { state: 3493858 };

    let mut remaining: HashSet<usize> = (0..15).collect();

    while !remaining.is_empty() {
        let value = rng.gen_usize_to(15);
        assert!(value < 15, "{} is not less than 15!", value);
        remaining.remove(&value);
    }
}

#[test]
fn draws_are_wyrand() {
    let mut rng = Rng { state: 0 };
    assert_eq!(rng.gen_u64(), 1233057930238600590);
    assert_eq!(rng.state, 0xA0761D6478BD642F);
    assert_eq!(rng.gen_u64(), 14892235431655409005);
    assert_eq!(rng.gen_usize(), 7060326114132480676u64 as usize);
}

#[test]
fn picks_below_zero_and_one() {
    let mut rng = Rng { state: 7 };
    assert_eq!(rng.gen_usize_to(0), 0);
    assert_eq!(rng.state, 7u64.wrapping_add(0xA0761D6478BD642F));
    assert_eq!(rng.gen_usize_to(1), 0);
}

#[test]
fn pick_is_high_half_of_product() {
    let mut rng = Rng { state: 42 };
    let mut copy = Rng { state: 42 };
    for to in [2usize, 3, 10, 1000] {
        let drawn = copy.gen_usize();
        let expected = ((drawn as u128 * to as u128) >> usize::BITS) as usize;
        assert_eq!(rng.gen_usize_to(to), expected);
        assert_eq!(rng.state, copy.state);
    }
}

#[test]
fn pick_drops_biased_draws() {
    // About half of all draws are dropped for this bound.
    let to = (usize::MAX >> 1) + 2;
    let threshold = to.wrapping_neg() % to;
    let mut rng = Rng { state: 1 };
    let mut copy = Rng { state: 1 };
    let mut dropped = 0;
    for _ in 0..50 {
        let mut drawn = copy.gen_usize();
        while drawn.wrapping_mul(to) < threshold {
            dropped += 1;
            drawn = copy.gen_usize();
        }
        let expected = ((drawn as u128 * to as u128) >> usize::BITS) as usize;
        let picked = rng.gen_usize_to(to);
        assert_eq!(picked, expected);
        assert!(picked < to);
        assert_eq!(rng.state, copy.state);
    }
    assert!(dropped > 0);
}

#[test]
fn picks_are_spread_evenly() {
    let mut rng = Rng { state: 99 };
    let mut counts = [0; 5];
    for _ in 0..50000 {
        counts[rng.gen_usize_to(5)] += 1;
    }
    assert!(counts.iter().all(|count| (9500..10500).contains(count)));
}

#[test]
fn numbers_are_picked_by_equally_many_draws() {
    // For a bound just above half of all values, every number is picked by one draw, namely the
    // first whose product with the bound lies behind the dropped ones.
    let to = (usize::MAX >> 1) + 2;
    let range = usize::MAX as u128 + 1;
    let threshold = (range % to as u128) as usize;
    for v in [0, 1, 2, 1000, to - 2, to - 1] {
        let near = (v as u128 * range / to as u128) as usize;
        let picking = (near.saturating_sub(4)..=near.saturating_add(4))
            .filter(|drawn| drawn.wrapping_mul(to) >= threshold)
            .filter(|drawn| ((*drawn as u128 * to as u128) >> usize::BITS) as usize == v)
            .count();
        assert_eq!(picking, 1);
    }
}
