//! Every number below a bound is as likely to be picked as any other.
use vstd::arithmetic::div_mod::{lemma_fundamental_div_mod, lemma_fundamental_div_mod_converse};
use vstd::prelude::*;
use vstd::set_lib::{lemma_int_range, lemma_set_disjoint_lens, set_int_range};

use crate::rng::{is_unbiased, lemma_pick_of_in_range, pick_of, usize_range};

verus! {

/// The draws that are accepted and pick `v`.
pub open spec fn draws_picking(v: int, to: usize) -> Set<int> {
    Set::new(
        |drawn: int|
            0 <= drawn < usize_range() && is_unbiased(drawn, to) && pick_of(drawn, to) == v,
    )
}

/// The draws that are dropped.
pub open spec fn dropped_draws(to: usize) -> Set<int> {
    Set::new(|drawn: int| 0 <= drawn < usize_range() && !is_unbiased(drawn, to))
}

/// The draws that are accepted and pick a number below `v`.
spec fn draws_picking_below(v: int, to: usize) -> Set<int> {
    Set::new(
        |drawn: int|
            0 <= drawn < usize_range() && is_unbiased(drawn, to) && pick_of(drawn, to) < v,
    )
}

/// A draw picks `v` if and only if its product with `to` falls into an interval whose length is a
/// multiple of `to`.
proof fn lemma_interval(drawn: int, v: int, to: usize)
    requires
        0 <= v < to,
    ensures
        draws_picking(v, to).contains(drawn) <==> {
            let first = v * usize_range() + usize_range() % (to as int);
            first <= drawn * to < first + to * (usize_range() / (to as int))
        },
{
    let range = usize_range();
    let n = to as int;
    let rest = range % n;
    let product = drawn * n;
    let first = v * range + rest;
    lemma_fundamental_div_mod(range, n);
    lemma_fundamental_div_mod(product, range);
    assert(v * range + range == first + n * (range / n));
    if draws_picking(v, to).contains(drawn) {
        assert(range * v == v * range) by (nonlinear_arith);
    }
    if first <= product < v * range + range {
        lemma_fundamental_div_mod_converse(product, range, v, product - v * range);
        assert(0 <= drawn < range) by (nonlinear_arith)
            requires
                0 <= rest,
                0 <= v < n,
                0 < range,
                product == drawn * n,
                v * range + rest <= product < v * range + range,
        ;
    }
}

/// Every number below `to` is picked by equally many of all `usize` values.
pub proof fn picks_are_equally_likely(v: int, to: usize)
    requires
        0 <= v < to,
    ensures
        draws_picking(v, to).finite(),
        draws_picking(v, to).len() == usize_range() / (to as int),
{
    let range = usize_range();
    let n = to as int;
    let count = range / n;
    let first = v * range + range % n;
    let lo = (first + n - 1) / n;
    lemma_fundamental_div_mod(range, n);
    lemma_fundamental_div_mod(first + n - 1, n);
    assert(count >= 0) by (nonlinear_arith)
        requires
            n * count + range % n == range,
            0 <= range % n < n,
            0 < n,
            0 <= range,
    ;
    assert forall|drawn: int| draws_picking(v, to).contains(drawn) <==> lo <= drawn < lo
        + count by {
        lemma_interval(drawn, v, to);
        assert(first <= drawn * n < first + n * count <==> lo <= drawn < lo + count)
            by (nonlinear_arith)
            requires
                0 < n,
                first <= n * lo <= first + n - 1,
        ;
    }
    assert(draws_picking(v, to) =~= set_int_range(lo, lo + count));
    lemma_int_range(lo, lo + count);
}

proof fn lemma_picking_below(v: int, to: usize)
    requires
        0 <= v <= to,
        to > 0,
    ensures
        draws_picking_below(v, to).finite(),
        draws_picking_below(v, to).len() == v * (usize_range() / (to as int)),
    decreases v,
{
    let count = usize_range() / (to as int);
    if v == 0 {
        assert forall|drawn: int| !draws_picking_below(0, to).contains(drawn) by {
            if 0 <= drawn < usize_range() {
                lemma_pick_of_in_range(drawn, to);
            }
        }
        assert(draws_picking_below(0, to) =~= Set::empty());
    } else {
        lemma_picking_below(v - 1, to);
        picks_are_equally_likely(v - 1, to);
        lemma_set_disjoint_lens(draws_picking_below(v - 1, to), draws_picking(v - 1, to));
        assert(draws_picking_below(v, to) =~= draws_picking_below(v - 1, to) + draws_picking(
            v - 1,
            to,
        ));
        assert(v * count == (v - 1) * count + count) by (nonlinear_arith);
    }
}

/// No more draws are dropped than it takes for that: what is left over when all `usize` values are
/// shared out evenly among the numbers below `to`.
pub proof fn leftover_draws_are_dropped(to: usize)
    requires
        to > 0,
    ensures
        dropped_draws(to).finite(),
        dropped_draws(to).len() == usize_range() % (to as int),
{
    let accepted = draws_picking_below(to as int, to);
    let all = set_int_range(0, usize_range());
    lemma_int_range(0, usize_range());
    lemma_picking_below(to as int, to);
    assert forall|drawn: int| all.contains(drawn) implies pick_of(drawn, to) < to by {
        lemma_pick_of_in_range(drawn, to);
    }
    assert(dropped_draws(to) =~= all.difference(accepted));
    lemma_set_disjoint_lens(accepted, dropped_draws(to));
    assert(all =~= accepted + dropped_draws(to));
    lemma_fundamental_div_mod(usize_range(), to as int);
}

} // verus!
