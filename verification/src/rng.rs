//! The Wyrand generator that picks the sibling queue a search for work starts from.
use vstd::arithmetic::div_mod::{
    lemma_add_mod_noop, lemma_fundamental_div_mod, lemma_fundamental_div_mod_converse,
    lemma_mod_multiples_vanish, lemma_mul_mod_noop_left, lemma_small_mod,
};
use vstd::prelude::*;

verus! {

/// What every draw adds to the state. It is odd, so the states run through all of `u64`.
pub const INCREMENT: u64 = 0xA0761D6478BD642F;

/// The constant that the state is mixed with.
pub const MIX: u64 = 0xE7037ED1A0B428DB;

/// The number of `u64` values.
pub open spec fn u64_range() -> int {
    0x1_0000_0000_0000_0000
}

/// The number of `usize` values.
pub open spec fn usize_range() -> int {
    usize::MAX + 1
}

/// The state after `n` draws from `state`.
pub open spec fn nth_state(state: u64, n: nat) -> u64 {
    ((state + n * INCREMENT) % u64_range()) as u64
}

/// The number that a draw returns which leaves `state` behind: the two halves of the 128 bit
/// product of the state and the mixed state, combined by exclusive or.
pub open spec fn output(state: u64) -> u64 {
    let product = state * (state ^ MIX);
    ((product / u64_range()) as u64) ^ ((product % u64_range()) as u64)
}

/// The number below `to` that a draw picks: the high half of its product with `to`.
pub open spec fn pick_of(drawn: int, to: usize) -> int {
    drawn * to / usize_range()
}

/// Whether a draw is accepted as a pick of a number below `to`: the low half of its product with
/// `to` must not be one of the first `usize_range() % to` values.
///
/// That every number is then picked by equally many draws is
/// [`picks_are_equally_likely`](crate::uniform::picks_are_equally_likely).
pub open spec fn is_unbiased(drawn: int, to: usize) -> bool {
    to == 0 || (drawn * to) % usize_range() >= usize_range() % (to as int)
}

/// Whether the draw that leaves `state` behind is accepted as a pick of a number below `to`.
pub open spec fn accepts(state: u64, to: usize) -> bool {
    is_unbiased(output(state) as usize as int, to)
}

/// Whether the draw number `n` from `state` is the first that is accepted.
pub open spec fn is_first_accepted(state: u64, to: usize, n: nat) -> bool {
    &&& n >= 1
    &&& accepts(nth_state(state, n), to)
    &&& forall|m: nat| 1 <= m < n ==> !accepts(#[trigger] nth_state(state, m), to)
}

/// How many draws a pick of a number below `to` takes from `state`.
pub open spec fn draws(state: u64, to: usize) -> nat {
    choose|n: nat| is_first_accepted(state, to, n)
}

/// The state that a pick of a number below `to` leaves behind.
pub open spec fn pick_state(state: u64, to: usize) -> u64 {
    nth_state(state, draws(state, to))
}

/// The number that a pick of a number below `to` returns.
pub open spec fn pick(state: u64, to: usize) -> int {
    pick_of(output(pick_state(state, to)) as usize as int, to)
}

/// Wyrand RNG.
#[derive(Debug)]
pub struct Rng {
    pub state: u64,
}

impl Rng {
    /// Draw a number.
    pub fn gen_u64(&mut self) -> (drawn: u64)
        ensures
            final(self).state == nth_state(old(self).state, 1),
            drawn == output(final(self).state),
    {
        self.state = self.state.wrapping_add(INCREMENT);
        let state: u64 = self.state;
        let mixed: u64 = state ^ MIX;
        proof {
            lemma_product_fits(state, mixed);
        }
        let t: u128 = (state as u128) * (mixed as u128);
        proof {
            lemma_halves(t);
        }
        ((t >> 64u128) as u64) ^ (t as u64)
    }

    /// Draw a number of the machine's word size.
    pub fn gen_usize(&mut self) -> (drawn: usize)
        ensures
            final(self).state == nth_state(old(self).state, 1),
            drawn == output(final(self).state) as usize,
    {
        self.gen_u64() as usize
    }

    /// Pick a number below `to`.
    ///
    /// A draw picks the high half of its product with `to`. Draws that would favour some picks over
    /// others are dropped; see [`uniform`](crate::uniform) and
    /// <https://www.pcg-random.org/posts/bounded-rands.html>.
    pub fn gen_usize_to(&mut self, to: usize) -> (picked: usize)
        ensures
            picked == pick(old(self).state, to),
            final(self).state == pick_state(old(self).state, to),
            to > 0 ==> picked < to,
    {
        let ghost start: u64 = self.state;
        let ghost mut drawn: nat = 1;
        proof {
            lemma_pick_ends(start, to);
        }
        let mut x: usize = self.gen_usize();
        let mut m: usize = high_half(x, to);
        let mut l: usize = x.wrapping_mul(to);
        if l < to {
            proof {
                lemma_threshold(to);
            }
            let t: usize = 0usize.wrapping_sub(to) % to;
            while l < t
                invariant
                    to > 0,
                    t == usize_range() % (to as int),
                    drawn >= 1,
                    self.state == nth_state(start, drawn),
                    x == output(self.state) as usize,
                    m == x * to / usize_range(),
                    l == (x * to) % usize_range(),
                    forall|k: nat| 1 <= k < drawn ==> !accepts(#[trigger] nth_state(start, k), to),
                    is_first_accepted(start, to, draws(start, to)),
                    drawn <= draws(start, to),
                decreases draws(start, to) - drawn,
            {
                proof {
                    assert(!accepts(nth_state(start, drawn), to));
                    lemma_nth_state_step(start, drawn);
                    drawn = drawn + 1;
                }
                x = self.gen_usize();
                m = high_half(x, to);
                l = x.wrapping_mul(to);
            }
        } else if to > 0 {
            proof {
                lemma_fundamental_div_mod(usize_range(), to as int);
            }
        }
        proof {
            lemma_first_accepted_unique(start, to, drawn, draws(start, to));
            if to > 0 {
                lemma_pick_of_in_range(x as int, to);
            }
        }
        m
    }
}

/// The high half of the product of `x` and `to`.
fn high_half(x: usize, to: usize) -> (half: usize)
    ensures
        half == x * to / usize_range(),
{
    proof {
        lemma_product_fits(x as u64, to as u64);
        lemma_high_half_fits(x, to);
    }
    let product: u128 = (x as u128) * (to as u128);
    proof {
        lemma_shift_by_word(product);
    }
    (product >> (usize::BITS as u128)) as usize
}

proof fn lemma_shift_by_word(product: u128)
    ensures
        product >> (usize::BITS as u128) == product as int / usize_range(),
{
    assert(product >> 64u128 == product / 0x1_0000_0000_0000_0000) by (bit_vector);
    assert(product >> 32u128 == product / 0x1_0000_0000) by (bit_vector);
}

/// A draw picks a number below `to`.
pub proof fn lemma_pick_of_in_range(drawn: int, to: usize)
    requires
        0 <= drawn < usize_range(),
        to > 0,
    ensures
        0 <= pick_of(drawn, to) < to,
{
    let range = usize_range();
    let product = drawn * to;
    assert(0 <= product < to * range) by (nonlinear_arith)
        requires
            0 <= drawn < range,
            0 < to,
            product == drawn * to,
    ;
    lemma_fundamental_div_mod(product, range);
    let half = product / range;
    let rest = product % range;
    assert(0 <= half < to) by (nonlinear_arith)
        requires
            0 <= product < to * range,
            product == range * half + rest,
            0 <= rest < range,
            range > 0,
    ;
}

proof fn lemma_high_half_fits(x: usize, to: usize)
    ensures
        0 <= x * to / usize_range() <= usize::MAX,
{
    if to > 0 {
        lemma_pick_of_in_range(x as int, to);
    } else {
        assert(x * to == 0) by (nonlinear_arith)
            requires
                to == 0,
        ;
    }
}

/// The smallest low half that is accepted, computed without leaving `usize`.
proof fn lemma_threshold(to: usize)
    requires
        to > 0,
    ensures
        (usize_range() - to) % (to as int) == usize_range() % (to as int),
{
    lemma_mod_multiples_vanish(-1, usize_range(), to as int);
}

proof fn lemma_nth_state_step(state: u64, n: nat)
    ensures
        nth_state(nth_state(state, n), 1) == nth_state(state, n + 1),
{
    let m = u64_range();
    assert((n + 1) * INCREMENT == n * INCREMENT + INCREMENT) by (nonlinear_arith);
    lemma_add_mod_noop(state + n * INCREMENT, INCREMENT as int, m);
    lemma_small_mod(INCREMENT as nat, m as nat);
}

proof fn lemma_first_accepted_unique(state: u64, to: usize, n: nat, k: nat)
    requires
        is_first_accepted(state, to, n),
        is_first_accepted(state, to, k),
    ensures
        n == k,
{
    if n < k {
        assert(!accepts(nth_state(state, n), to));
    }
    if k < n {
        assert(!accepts(nth_state(state, k), to));
    }
}

/// The inverse of `INCREMENT` modulo the number of `u64` values.
spec fn inverse() -> int {
    0x939C72E4AF1E62CF
}

/// Two states whose outputs are consecutive numbers.
spec fn low_state() -> u64 {
    0x72B5E45E828A9414
}

spec fn high_state() -> u64 {
    0xC973DD3772FC6A8F
}

spec fn low_output() -> u64 {
    0x20A264D33CDB4B2F
}

/// Every pick ends: from every state some draw is accepted.
///
/// Of two consecutive numbers at least one is accepted, the generator passes through all states,
/// and two of its states put out consecutive numbers.
pub proof fn lemma_pick_ends(state: u64, to: usize)
    ensures
        exists|n: nat| is_first_accepted(state, to, n),
        is_first_accepted(state, to, draws(state, to)),
{
    lemma_consecutive_outputs();
    let target = if accepts(low_state(), to) {
        low_state()
    } else {
        lemma_successor_accepted(output(low_state()) as usize, output(high_state()) as usize, to);
        high_state()
    };
    let n = lemma_state_reached(state, target);
    lemma_least_accepted(state, to, n);
}

/// The state moves on by the same odd number with every draw, and wraps around.
pub proof fn draws_move_the_state(state: u64, n: nat)
    ensures
        nth_state(state, 0) == state,
        nth_state(state, n + 1) == (nth_state(state, n) + 0xA0761D6478BD642F)
            % 0x1_0000_0000_0000_0000,
{
    lemma_nth_state_step(state, n);
    lemma_small_mod(state as nat, u64_range() as nat);
    assert(n * 0 == 0 && 0 * INCREMENT == 0);
}

/// What is drawn folds the product of the state and the mixed state: its upper and its lower half,
/// whatever they are, are combined by exclusive or.
pub proof fn draws_fold_the_product(state: u64, upper: u64, lower: u64)
    requires
        state * (state ^ 0xE7037ED1A0B428DBu64) == upper * 0x1_0000_0000_0000_0000 + lower,
    ensures
        output(state) == upper ^ lower,
{
    lemma_fundamental_div_mod_converse(
        state * (state ^ MIX),
        u64_range(),
        upper as int,
        lower as int,
    );
}

/// A pick scales the first draw that is accepted: with the number of `usize` values as `range`, the
/// product of a draw and `to` is `pick * range + low`, and the draw is accepted if and only if
/// `low` is not one of the first `range % to` values.
pub proof fn pick_scales_first_accepted_draw(state: u64, to: usize, n: nat, picked: int, low: int)
    requires
        to > 0,
        n >= 1,
        // The draw number `n` is accepted, and comes to `picked`:
        (output(nth_state(state, n)) as usize) * to == picked * (usize::MAX + 1) + low,
        (usize::MAX + 1) % (to as int) <= low < usize::MAX + 1,
        // Those before it are not:
        forall|m: nat|
            1 <= m < n ==> ((output(#[trigger] nth_state(state, m)) as usize) * to) % (usize::MAX
                + 1) < (usize::MAX + 1) % (to as int),
    ensures
        pick(state, to) == picked,
        pick_state(state, to) == nth_state(state, n),
{
    lemma_fundamental_div_mod_converse(
        (output(nth_state(state, n)) as usize) * to,
        usize_range(),
        picked,
        low,
    );
    assert(is_first_accepted(state, to, n));
    lemma_first_accepted_unique(state, to, n, draws(state, to));
}

/// A pick below zero takes one draw and is zero.
pub proof fn pick_below_zero(state: u64)
    ensures
        pick(state, 0) == 0,
        pick_state(state, 0) == nth_state(state, 1),
{
    assert(is_first_accepted(state, 0, 1));
    lemma_first_accepted_unique(state, 0, 1, draws(state, 0));
    assert(output(nth_state(state, 1)) as usize * 0 == 0) by (nonlinear_arith);
}

/// A pick of a number below `to` is below `to`.
pub proof fn lemma_pick_in_range(state: u64, to: usize)
    requires
        to > 0,
    ensures
        0 <= pick(state, to) < to,
{
    lemma_pick_of_in_range(output(pick_state(state, to)) as usize as int, to);
}

proof fn lemma_least_accepted(state: u64, to: usize, n: nat)
    requires
        n >= 1,
        accepts(nth_state(state, n), to),
    ensures
        exists|k: nat| is_first_accepted(state, to, k),
    decreases n,
{
    if exists|m: nat| 1 <= m < n && accepts(#[trigger] nth_state(state, m), to) {
        let m = choose|m: nat| 1 <= m < n && accepts(#[trigger] nth_state(state, m), to);
        lemma_least_accepted(state, to, m);
    } else {
        assert(is_first_accepted(state, to, n));
    }
}

proof fn lemma_state_reached(state: u64, target: u64) -> (n: nat)
    ensures
        n >= 1,
        nth_state(state, n) == target,
{
    let m = u64_range();
    let gap = target - state;
    let k = (gap * inverse()) % m;
    let n = (k + m) as nat;
    let increment = INCREMENT as int;
    // n * INCREMENT is the gap, modulo the number of states.
    assert((n * increment) % m == gap % m) by {
        assert(n * increment == m * increment + k * increment) by (nonlinear_arith)
            requires
                n == k + m,
        ;
        lemma_mod_multiples_vanish(increment, k * increment, m);
        lemma_mul_mod_noop_left(gap * inverse(), increment, m);
        assert(inverse() * increment == 6666984268827920654 * m + 1);
        assert(gap * inverse() * increment == gap * (inverse() * increment)) by (nonlinear_arith);
        assert(gap * (inverse() * increment) == m * (gap * 6666984268827920654) + gap)
            by (nonlinear_arith)
            requires
                inverse() * increment == 6666984268827920654 * m + 1,
        ;
        lemma_mod_multiples_vanish(gap * 6666984268827920654, gap, m);
    }
    lemma_add_mod_noop(state as int, n * increment, m);
    lemma_add_mod_noop(state as int, gap, m);
    lemma_small_mod(target as nat, m as nat);
    n
}

proof fn lemma_consecutive_outputs()
    ensures
        output(low_state()) as usize + 1 == output(high_state()) as usize,
{
    assert(0x72B5E45E828A9414u64 ^ 0xE7037ED1A0B428DBu64 == 10787979896958139599u64)
        by (bit_vector);
    assert(0xC973DD3772FC6A8Fu64 ^ 0xE7037ED1A0B428DBu64 == 3346354734902035028u64) by (bit_vector);
    assert(4833963825625507587u64 ^ 7185445582195158060u64 == 0x20A264D33CDB4B2Fu64)
        by (bit_vector);
    assert(2633327510227034076u64 ^ 299790332512687340u64 == 0x20A264D33CDB4B30u64) by (bit_vector);
    assert(output(low_state()) == low_output());
    assert(output(high_state()) == low_output() + 1);
    assert(0x20A264D33CDB4B2Fu64 as usize + 1 == 0x20A264D33CDB4B30u64 as usize) by (bit_vector);
}

proof fn lemma_successor_accepted(x: usize, y: usize, to: usize)
    requires
        to > 0,
        y == x + 1,
        (x * to) % usize_range() < usize_range() % (to as int),
    ensures
        (y * to) % usize_range() >= usize_range() % (to as int),
{
    let range = usize_range();
    let low = (x * to) % range;
    let rest = range % (to as int);
    lemma_fundamental_div_mod(range, to as int);
    let quotient = range / (to as int);
    assert(to + rest <= range) by (nonlinear_arith)
        requires
            range == to * quotient + rest,
            0 <= rest < to < range,
    ;
    assert(y * to == x * to + to) by (nonlinear_arith)
        requires
            y == x + 1,
    ;
    lemma_add_mod_noop(x * to, to as int, range);
    lemma_small_mod(to as nat, range as nat);
    lemma_small_mod((low + to) as nat, range as nat);
}

proof fn lemma_product_fits(x: u64, y: u64)
    ensures
        0 <= x * y <= 0xffff_ffff_ffff_ffff_ffff_ffff_ffff_ffff,
{
    assert(0 <= x * y <= 0xffff_ffff_ffff_ffff * 0xffff_ffff_ffff_ffff) by (nonlinear_arith)
        requires
            0 <= x <= 0xffff_ffff_ffff_ffff,
            0 <= y <= 0xffff_ffff_ffff_ffff,
    ;
}

proof fn lemma_halves(t: u128)
    ensures
        (t >> 64u128) == t / 0x1_0000_0000_0000_0000,
        (t >> 64u128) <= u64::MAX,
        t as u64 == t % 0x1_0000_0000_0000_0000,
{
    assert((t >> 64u128) == t / 0x1_0000_0000_0000_0000) by (bit_vector);
    assert((t >> 64u128) <= 0xffff_ffff_ffff_ffffu128) by (bit_vector);
    assert(t as u64 == t % 0x1_0000_0000_0000_0000) by (bit_vector);
}

} // verus!
